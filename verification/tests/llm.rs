use third_principles_bot::counts::ItemCounts;
use third_principles_bot::llm::{
    completions_url, content_preview, describe_refusal, inventory_summary, is_accepted, llm_config,
    read_structure, reply_content, structure_request, LlmReply,
};
use third_principles_bot::structure::Structure;

fn counts(items: &[(&str, u32)]) -> ItemCounts {
    let mut counts = ItemCounts::new();
    for (name, count) in items {
        counts = counts.with_count((*name).to_owned(), *count);
    }
    counts
}

#[test]
fn inventory_summary_reports_total_and_sample_items() {
    let inventory = counts(&[
        ("minecraft:dirt", 12),
        ("minecraft:oak_planks", 4),
        ("minecraft:cobblestone", 20),
        ("minecraft:glass", 2),
    ]);

    let summary = inventory_summary(&inventory);

    assert!(summary.contains("4 item types"));
    assert!(summary.contains("38 total blocks"));
    assert!(summary.contains("minecraft:cobblestone=20"));
}

#[test]
fn content_preview_truncates_long_content() {
    let content = "abcdefghijklmnopqrstuvwxyz0123456789";

    let preview = content_preview(content, 16);

    assert_eq!(preview, "abcdefghijklmnop...");
}

#[test]
fn a_summary_names_the_three_most_frequent_items() {
    assert_eq!(
        inventory_summary(&counts(&[
            ("minecraft:dirt", 12),
            ("minecraft:oak_planks", 4),
            ("minecraft:cobblestone", 20),
            ("minecraft:glass", 2),
        ])),
        "4 item types, 38 total blocks \
         [minecraft:cobblestone=20, minecraft:dirt=12, minecraft:oak_planks=4]"
    );
    assert_eq!(
        inventory_summary(&counts(&[("b", 3), ("aa", 3), ("a", 3), ("c", 7)])),
        "4 item types, 16 total blocks [c=7, a=3, aa=3]"
    );
    assert_eq!(
        inventory_summary(&counts(&[("minecraft:dirt", 1)])),
        "1 item types, 1 total blocks [minecraft:dirt=1]"
    );
    assert_eq!(
        inventory_summary(&ItemCounts::new()),
        "0 item types, 0 total blocks"
    );
}

#[test]
fn a_preview_keeps_short_content() {
    assert_eq!(content_preview("abc", 3), "abc");
    assert_eq!(content_preview("abc", 2), "ab...");
    assert_eq!(content_preview("", 0), "");
    assert_eq!(content_preview("häuser", 3), "hä...");
}

#[test]
fn the_configuration_needs_all_settings() {
    let some = |text: &str| Some(text.to_owned());
    let config = llm_config(some("https://host/api"), some("key"), some("model"))
        .expect("a configuration");
    assert_eq!(config.base_url, "https://host/api");
    assert_eq!(config.api_key, "key");
    assert_eq!(config.model, "model");
    assert_eq!(
        llm_config(None, None, None).unwrap_err(),
        "OPENROUTER_BASE_URL not set"
    );
    assert_eq!(
        llm_config(some("url"), None, None).unwrap_err(),
        "OPENROUTER_API_KEY not set"
    );
    assert_eq!(
        llm_config(some("url"), some("key"), None).unwrap_err(),
        "OPENROUTER_MODEL not set"
    );
}

#[test]
fn a_request_tells_the_task_and_what_there_is() {
    let inventory = counts(&[("minecraft:dirt", 64), ("minecraft:oak_log", 12)]);
    let request = structure_request("model".to_owned(), "dirt house", &inventory);
    assert_eq!(request.model, "model");
    assert_eq!(request.messages.len(), 2);
    assert_eq!(request.messages[0].role, "system");
    assert!(request.messages[0]
        .content
        .starts_with("You are a Minecraft structure generator."));
    assert!(request.messages[0]
        .content
        .ends_with("Output ONLY the JSON object — no markdown fences, no explanation."));
    assert_eq!(request.messages[1].role, "user");
    assert_eq!(
        request.messages[1].content,
        "Description: dirt house\nAvailable inventory:\n  minecraft:dirt: 64\n  minecraft:oak_log: 12"
    );
    assert_eq!(request.response_format.kind, "json_object");
    let bare = structure_request("model".to_owned(), "hut", &ItemCounts::new());
    assert_eq!(
        bare.messages[1].content,
        "Description: hut\nAvailable inventory:\n  (empty)"
    );
}

#[test]
fn slashes_at_the_end_of_the_base_do_not_matter() {
    for base in ["https://host/api/v1", "https://host/api/v1/", "https://host/api/v1//"] {
        assert_eq!(completions_url(base), "https://host/api/v1/chat/completions");
    }
}

#[test]
fn replies_without_content_are_errors() {
    assert_eq!(
        reply_content(LlmReply::NotSent("no route".to_owned())),
        Err("request failed: no route".to_owned())
    );
    assert_eq!(
        reply_content(LlmReply::Refused {
            status: 404,
            body: "nothing here".to_owned()
        }),
        Err("HTTP 404 Not Found: nothing here".to_owned())
    );
    assert_eq!(
        reply_content(LlmReply::Refused {
            status: 599,
            body: String::new()
        }),
        Err("HTTP 599 <unknown status code>: ".to_owned())
    );
    assert_eq!(
        reply_content(LlmReply::Unreadable("bad json".to_owned())),
        Err("failed to parse API response: bad json".to_owned())
    );
    assert_eq!(
        reply_content(LlmReply::Choices(vec![])),
        Err("no choices in LLM response".to_owned())
    );
    assert_eq!(
        reply_content(LlmReply::Choices(vec!["first".to_owned(), "second".to_owned()])),
        Ok("first".to_owned())
    );
    assert_eq!(describe_refusal("418", "tea"), "HTTP 418: tea");
}

#[test]
fn only_some_statuses_are_accepted() {
    assert!(is_accepted(200));
    assert!(is_accepted(204));
    assert!(is_accepted(299));
    assert!(!is_accepted(199));
    assert!(!is_accepted(300));
    assert!(!is_accepted(404));
    assert!(!is_accepted(999));
}

#[test]
fn content_that_is_no_structure_is_shown() {
    assert_eq!(
        read_structure(Err("expected value".to_owned()), "hello").unwrap_err(),
        "failed to parse structure JSON: expected value\nContent: hello"
    );
    let structure = Structure {
        blocks: vec![],
        materials: counts(&[("minecraft:dirt", 2)]),
    };
    let read = read_structure(Ok(structure), "{}").expect("a structure");
    assert_eq!(read.materials.count_of("minecraft:dirt"), 2);
}
