//! The kinds of blocks and items that the rules tell apart.

use vstd::prelude::*;

verus! {

/// A kind of block.
#[derive(Clone, Copy, Debug, PartialEq, Eq, Structural)]
pub enum BlockKind {
    Air,
    CaveAir,
    VoidAir,
    Chest,
    TrappedChest,
    OakLog,
    SpruceLog,
    BirchLog,
    JungleLog,
    AcaciaLog,
    DarkOakLog,
    MangroveLog,
    CherryLog,
    PaleOakLog,
    Stone,
    Deepslate,
    CobbledDeepslate,
    CoalOre,
    DeepslateCoalOre,
    IronOre,
    DeepslateIronOre,
    CopperOre,
    DeepslateCopperOre,
    GoldOre,
    DeepslateGoldOre,
    RedstoneOre,
    DeepslateRedstoneOre,
    EmeraldOre,
    DeepslateEmeraldOre,
    LapisOre,
    DeepslateLapisOre,
    DiamondOre,
    DeepslateDiamondOre,
    NetherGoldOre,
    NetherQuartzOre,
    AncientDebris,
    /// Any other kind, by its number in the registry.
    Other(u32),
}

/// A kind of item.
#[derive(Clone, Copy, Debug, PartialEq, Eq, Structural)]
pub enum ItemKind {
    OakLog,
    SpruceLog,
    BirchLog,
    JungleLog,
    AcaciaLog,
    DarkOakLog,
    MangroveLog,
    CherryLog,
    PaleOakLog,
    Cobblestone,
    WoodenAxe,
    StoneAxe,
    CopperAxe,
    GoldenAxe,
    IronAxe,
    DiamondAxe,
    NetheriteAxe,
    WoodenPickaxe,
    StonePickaxe,
    CopperPickaxe,
    GoldenPickaxe,
    IronPickaxe,
    DiamondPickaxe,
    NetheritePickaxe,
    WoodenSword,
    StoneSword,
    GoldenSword,
    IronSword,
    DiamondSword,
    NetheriteSword,
    /// Any other kind, by its number in the registry.
    Other(u32),
}

/// A kind of tool, or of weapon.
#[derive(Clone, Copy, Debug, PartialEq, Eq, Structural)]
pub enum PreferredTool {
    Axe,
    Pickaxe,
    Sword,
}

/// The log blocks of the overworld.
pub open spec fn overworld_log_blocks() -> Seq<BlockKind> {
    seq![
        BlockKind::OakLog,
        BlockKind::SpruceLog,
        BlockKind::BirchLog,
        BlockKind::JungleLog,
        BlockKind::AcaciaLog,
        BlockKind::DarkOakLog,
        BlockKind::MangroveLog,
        BlockKind::CherryLog,
        BlockKind::PaleOakLog,
    ]
}

/// The log items of the overworld.
pub open spec fn overworld_log_items() -> Seq<ItemKind> {
    seq![
        ItemKind::OakLog,
        ItemKind::SpruceLog,
        ItemKind::BirchLog,
        ItemKind::JungleLog,
        ItemKind::AcaciaLog,
        ItemKind::DarkOakLog,
        ItemKind::MangroveLog,
        ItemKind::CherryLog,
        ItemKind::PaleOakLog,
    ]
}

/// The log blocks of the overworld.
pub fn overworld_logs() -> (blocks: Vec<BlockKind>)
    ensures
        blocks@ == overworld_log_blocks(),
{
    let blocks = vec![
        BlockKind::OakLog,
        BlockKind::SpruceLog,
        BlockKind::BirchLog,
        BlockKind::JungleLog,
        BlockKind::AcaciaLog,
        BlockKind::DarkOakLog,
        BlockKind::MangroveLog,
        BlockKind::CherryLog,
        BlockKind::PaleOakLog,
    ];
    assert(blocks@ =~= overworld_log_blocks());
    blocks
}

/// The log items of the overworld.
pub fn overworld_log_drops() -> (items: Vec<ItemKind>)
    ensures
        items@ == overworld_log_items(),
{
    let items = vec![
        ItemKind::OakLog,
        ItemKind::SpruceLog,
        ItemKind::BirchLog,
        ItemKind::JungleLog,
        ItemKind::AcaciaLog,
        ItemKind::DarkOakLog,
        ItemKind::MangroveLog,
        ItemKind::CherryLog,
        ItemKind::PaleOakLog,
    ];
    assert(items@ =~= overworld_log_items());
    items
}

/// Whether a block is a log of the overworld.
pub fn is_overworld_log(block: BlockKind) -> (r: bool)
    ensures
        r == overworld_log_blocks().contains(block),
{
    let logs = overworld_logs();
    let mut i: usize = 0;
    while i < logs.len()
        invariant
            i <= logs@.len(),
            logs@ == overworld_log_blocks(),
            forall|j: int| 0 <= j < i ==> logs@[j] != block,
        decreases logs@.len() - i,
    {
        if logs[i] == block {
            assert(overworld_log_blocks()[i as int] == block);
            return true;
        }
        i = i + 1;
    }
    false
}

/// Whether a block is best mined with a pickaxe.
pub open spec fn block_prefers_pickaxe_spec(block: BlockKind) -> bool {
    match block {
        BlockKind::Stone
        | BlockKind::Deepslate
        | BlockKind::CobbledDeepslate
        | BlockKind::CoalOre
        | BlockKind::DeepslateCoalOre
        | BlockKind::IronOre
        | BlockKind::DeepslateIronOre
        | BlockKind::CopperOre
        | BlockKind::DeepslateCopperOre
        | BlockKind::GoldOre
        | BlockKind::DeepslateGoldOre
        | BlockKind::RedstoneOre
        | BlockKind::DeepslateRedstoneOre
        | BlockKind::EmeraldOre
        | BlockKind::DeepslateEmeraldOre
        | BlockKind::LapisOre
        | BlockKind::DeepslateLapisOre
        | BlockKind::DiamondOre
        | BlockKind::DeepslateDiamondOre
        | BlockKind::NetherGoldOre
        | BlockKind::NetherQuartzOre
        | BlockKind::AncientDebris => true,
        _ => false,
    }
}

/// Whether a block is best mined with a pickaxe.
#[verifier::when_used_as_spec(block_prefers_pickaxe_spec)]
pub fn block_prefers_pickaxe(block: BlockKind) -> (r: bool)
    ensures
        r == block_prefers_pickaxe_spec(block),
{
    match block {
        BlockKind::Stone
        | BlockKind::Deepslate
        | BlockKind::CobbledDeepslate
        | BlockKind::CoalOre
        | BlockKind::DeepslateCoalOre
        | BlockKind::IronOre
        | BlockKind::DeepslateIronOre
        | BlockKind::CopperOre
        | BlockKind::DeepslateCopperOre
        | BlockKind::GoldOre
        | BlockKind::DeepslateGoldOre
        | BlockKind::RedstoneOre
        | BlockKind::DeepslateRedstoneOre
        | BlockKind::EmeraldOre
        | BlockKind::DeepslateEmeraldOre
        | BlockKind::LapisOre
        | BlockKind::DeepslateLapisOre
        | BlockKind::DiamondOre
        | BlockKind::DeepslateDiamondOre
        | BlockKind::NetherGoldOre
        | BlockKind::NetherQuartzOre
        | BlockKind::AncientDebris => true,
        _ => false,
    }
}

/// Whether a block can be walked through: air of any kind, and what is not loaded.
pub open spec fn is_passable(kind: Option<BlockKind>) -> bool {
    match kind {
        None => true,
        Some(block) => block == BlockKind::Air || block == BlockKind::CaveAir || block
            == BlockKind::VoidAir,
    }
}

/// Whether a block can be walked through.
pub fn is_passable_block(kind: Option<BlockKind>) -> (r: bool)
    ensures
        r == is_passable(kind),
{
    match kind {
        None => true,
        Some(block) => block == BlockKind::Air || block == BlockKind::CaveAir || block
            == BlockKind::VoidAir,
    }
}

/// Whether an item is an axe.
pub open spec fn is_axe_spec(item: ItemKind) -> bool {
    match item {
        ItemKind::WoodenAxe
        | ItemKind::StoneAxe
        | ItemKind::CopperAxe
        | ItemKind::GoldenAxe
        | ItemKind::IronAxe
        | ItemKind::DiamondAxe
        | ItemKind::NetheriteAxe => true,
        _ => false,
    }
}

/// Whether an item is an axe.
#[verifier::when_used_as_spec(is_axe_spec)]
pub fn is_axe(item: ItemKind) -> (r: bool)
    ensures
        r == is_axe_spec(item),
{
    match item {
        ItemKind::WoodenAxe
        | ItemKind::StoneAxe
        | ItemKind::CopperAxe
        | ItemKind::GoldenAxe
        | ItemKind::IronAxe
        | ItemKind::DiamondAxe
        | ItemKind::NetheriteAxe => true,
        _ => false,
    }
}

/// Whether an item is a pickaxe.
pub open spec fn is_pickaxe_spec(item: ItemKind) -> bool {
    match item {
        ItemKind::WoodenPickaxe
        | ItemKind::StonePickaxe
        | ItemKind::CopperPickaxe
        | ItemKind::GoldenPickaxe
        | ItemKind::IronPickaxe
        | ItemKind::DiamondPickaxe
        | ItemKind::NetheritePickaxe => true,
        _ => false,
    }
}

/// Whether an item is a pickaxe.
#[verifier::when_used_as_spec(is_pickaxe_spec)]
pub fn is_pickaxe(item: ItemKind) -> (r: bool)
    ensures
        r == is_pickaxe_spec(item),
{
    match item {
        ItemKind::WoodenPickaxe
        | ItemKind::StonePickaxe
        | ItemKind::CopperPickaxe
        | ItemKind::GoldenPickaxe
        | ItemKind::IronPickaxe
        | ItemKind::DiamondPickaxe
        | ItemKind::NetheritePickaxe => true,
        _ => false,
    }
}

/// Whether an item is a sword.
pub open spec fn is_sword_spec(item: ItemKind) -> bool {
    match item {
        ItemKind::WoodenSword
        | ItemKind::StoneSword
        | ItemKind::GoldenSword
        | ItemKind::IronSword
        | ItemKind::DiamondSword
        | ItemKind::NetheriteSword => true,
        _ => false,
    }
}

/// Whether an item is a sword.
#[verifier::when_used_as_spec(is_sword_spec)]
pub fn is_sword(item: ItemKind) -> (r: bool)
    ensures
        r == is_sword_spec(item),
{
    match item {
        ItemKind::WoodenSword
        | ItemKind::StoneSword
        | ItemKind::GoldenSword
        | ItemKind::IronSword
        | ItemKind::DiamondSword
        | ItemKind::NetheriteSword => true,
        _ => false,
    }
}

/// Whether an item is a tool of the preferred kind.
pub open spec fn is_tool(item: ItemKind, preferred_tool: PreferredTool) -> bool {
    match preferred_tool {
        PreferredTool::Axe => is_axe(item),
        PreferredTool::Pickaxe => is_pickaxe(item),
        PreferredTool::Sword => is_sword(item),
    }
}

/// Whether an item is a tool of the preferred kind.
pub fn tool_matches(item: ItemKind, preferred_tool: PreferredTool) -> (r: bool)
    ensures
        r == is_tool(item, preferred_tool),
{
    match preferred_tool {
        PreferredTool::Axe => is_axe(item),
        PreferredTool::Pickaxe => is_pickaxe(item),
        PreferredTool::Sword => is_sword(item),
    }
}

/// No item is a tool of two kinds.
pub proof fn tool_kinds_are_disjoint(item: ItemKind, a: PreferredTool, b: PreferredTool)
    requires
        is_tool(item, a),
        is_tool(item, b),
    ensures
        a == b,
{
}

/// The name of a kind of tool.
pub open spec fn tool_name(preferred_tool: PreferredTool) -> Seq<char> {
    match preferred_tool {
        PreferredTool::Axe => "axe"@,
        PreferredTool::Pickaxe => "pickaxe"@,
        PreferredTool::Sword => "sword"@,
    }
}

/// The name of a kind of tool.
pub fn preferred_tool_name(preferred_tool: PreferredTool) -> (name: &'static str)
    ensures
        name@ == tool_name(preferred_tool),
{
    match preferred_tool {
        PreferredTool::Axe => "axe",
        PreferredTool::Pickaxe => "pickaxe",
        PreferredTool::Sword => "sword",
    }
}

/// Only air can be walked through, and what is not known: no block that can be mined or opened
/// can.
pub proof fn only_air_gives_way(block: BlockKind)
    ensures
        is_passable(None),
        is_passable(Some(block)) <==> block is Air || block is CaveAir || block is VoidAir,
        is_passable(Some(block)) ==> !overworld_log_blocks().contains(block)
            && !block_prefers_pickaxe(block),
{
    assert(overworld_log_blocks().len() == 9);
}

/// Each log drops its own item: there is a log for every log item, in the same place.
pub proof fn logs_drop_themselves(block: BlockKind)
    ensures
        overworld_log_blocks().contains(block) <==> block is OakLog || block is SpruceLog || block
            is BirchLog || block is JungleLog || block is AcaciaLog || block is DarkOakLog || block
            is MangroveLog || block is CherryLog || block is PaleOakLog,
        overworld_log_blocks().len() == 9,
        overworld_log_items().len() == 9,
        forall|i: int|
            0 <= i < 9 ==> match #[trigger] overworld_log_blocks()[i] {
                BlockKind::OakLog => overworld_log_items()[i] is OakLog,
                BlockKind::SpruceLog => overworld_log_items()[i] is SpruceLog,
                BlockKind::BirchLog => overworld_log_items()[i] is BirchLog,
                BlockKind::JungleLog => overworld_log_items()[i] is JungleLog,
                BlockKind::AcaciaLog => overworld_log_items()[i] is AcaciaLog,
                BlockKind::DarkOakLog => overworld_log_items()[i] is DarkOakLog,
                BlockKind::MangroveLog => overworld_log_items()[i] is MangroveLog,
                BlockKind::CherryLog => overworld_log_items()[i] is CherryLog,
                BlockKind::PaleOakLog => overworld_log_items()[i] is PaleOakLog,
                _ => false,
            },
{
    let logs = overworld_log_blocks();
    assert(logs[0] is OakLog && logs[1] is SpruceLog && logs[2] is BirchLog && logs[3] is JungleLog
        && logs[4] is AcaciaLog && logs[5] is DarkOakLog && logs[6] is MangroveLog && logs[7]
        is CherryLog && logs[8] is PaleOakLog);
}

/// Every tool of wood, stone, copper, gold, iron, diamond and netherite is one of its kind, and
/// swords are of the same but for copper; nothing else is a tool.
pub proof fn tools_come_in_every_material(item: ItemKind)
    ensures
        is_tool(item, PreferredTool::Axe) <==> item is WoodenAxe || item is StoneAxe || item
            is CopperAxe || item is GoldenAxe || item is IronAxe || item is DiamondAxe || item
            is NetheriteAxe,
        is_tool(item, PreferredTool::Pickaxe) <==> item is WoodenPickaxe || item is StonePickaxe
            || item is CopperPickaxe || item is GoldenPickaxe || item is IronPickaxe || item
            is DiamondPickaxe || item is NetheritePickaxe,
        is_tool(item, PreferredTool::Sword) <==> item is WoodenSword || item is StoneSword || item
            is GoldenSword || item is IronSword || item is DiamondSword || item is NetheriteSword,
{
}

/// Stone and ore are what a pickaxe is for; of the kinds that the rules tell apart, air, chests
/// and logs are not.
pub proof fn rock_takes_a_pickaxe(block: BlockKind)
    ensures
        block_prefers_pickaxe(block) <==> !(block is Air || block is CaveAir || block is VoidAir
            || block is Chest || block is TrappedChest || overworld_log_blocks().contains(block)
            || block is Other),
{
    logs_drop_themselves(block);
}

} // verus!
