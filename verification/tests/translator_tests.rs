use dst_update_publisher::error::AppError;
use dst_update_publisher::models::{PoSearchResult, PoTranslationEntry};
use dst_update_publisher::po_search::{build_index_from_po_contents, PoFileIndex};
use dst_update_publisher::translator::{
    build_user_prompt, run_tool_calls, search_tool_name,
    search_tool_parameters, system_prompt, tool_result_line, ChatMessage, LlmReply, ToolCall,
    TranslateAction, Translation,
};

const PO: &str = "msgid \"\"\nmsgstr \"\"\n\"Content-Type: text/plain; charset=UTF-8\\n\"\n\nmsgctxt \"STRINGS.NAMES.WARG\"\nmsgid \"Varg\"\nmsgstr \"座狼\"\n";

fn glossary_index() -> PoFileIndex {
    build_index_from_po_contents(&[PO.to_string()]).ok().unwrap()
}

fn call(id: &str, name: &str, args: &str) -> ToolCall {
    ToolCall { id: id.into(), name: name.into(), arguments: args.into() }
}

#[test]
fn prompts_frame_the_announcement() {
    assert_eq!(
        build_user_prompt("Fixed."),
        "请将以下《饥荒联机版》更新公告翻译成中文。\n公告内容：\nFixed."
    );
    assert!(system_prompt().starts_with("你是一个专业的《饥荒联机版》"));
    assert!(system_prompt().contains("`search_po_terms`"));
    assert_eq!(search_tool_name(), "search_po_terms");
    let schema: serde_json::Value = serde_json::from_str(search_tool_parameters()).unwrap();
    assert_eq!(schema["required"][0], "terms");
    assert_eq!(schema["properties"]["terms"]["type"], "array");
}

#[test]
fn tool_lines() {
    let none = PoSearchResult { term: "Foo".into(), candidates: vec![] };
    assert_eq!(tool_result_line("Foo", &none), "Foo → (未找到官方翻译)");
    let two = PoSearchResult {
        term: "Varg".into(),
        candidates: vec![
            PoTranslationEntry { original: "Varg".into(), translation: "座狼".into() },
            PoTranslationEntry { original: "Vargling".into(), translation: "座狼崽".into() },
        ],
    };
    assert_eq!(tool_result_line("Varg", &two), "Varg → 座狼\n  Vargling → 座狼崽");
}

#[test]
fn tool_calls_search_each_term() {
    let ix = glossary_index();
    let calls = vec![
        call("c1", "search_po_terms", r#"{"terms": ["Varg", 7, "Nothing"]}"#),
        call("c2", "other_tool", "{}"),
        call("c3", "search_po_terms", r#"{"other": 1}"#),
    ];
    let out = run_tool_calls(&calls, &ix).ok().unwrap();
    assert_eq!(out.search_results.len(), 2);
    assert_eq!(out.search_results[0].term, "Varg");
    assert_eq!(out.search_results[1].term, "Nothing");
    assert_eq!(out.replies.len(), 3);
    assert_eq!(out.replies[0].call_id, "c1");
    assert_eq!(out.replies[0].content, "Varg → 座狼\nNothing → (未找到官方翻译)");
    assert_eq!(out.replies[1].call_id, "c2");
    assert_eq!(out.replies[1].content, "unknown tool: other_tool");
    assert_eq!(out.replies[2].call_id, "c3");
    assert_eq!(out.replies[2].content, "");
}

#[test]
fn tool_call_with_bad_json() {
    let ix = glossary_index();
    let calls = vec![call("c1", "search_po_terms", "{not json")];
    match run_tool_calls(&calls, &ix) {
        Err(AppError::LlmResponseParse(m)) => assert!(m.starts_with("failed to parse tool args: ")),
        _ => panic!("expected a parse error"),
    }
}

#[test]
fn translation_with_tool_calls() {
    let ix = glossary_index();
    let (mut t, first) = Translation::start("Added the Varg.");
    match first {
        TranslateAction::Ask { messages, offer_tools } => {
            assert!(offer_tools);
            assert_eq!(messages.len(), 2);
            assert!(matches!(&messages[0], ChatMessage::System(s) if s == system_prompt()));
            assert!(matches!(&messages[1], ChatMessage::User(u) if u == &build_user_prompt("Added the Varg.")));
        }
        _ => panic!("expected a request"),
    }
    let reply = LlmReply::Choice {
        tool_calls: vec![call("call_1", "search_po_terms", r#"{"terms":["Varg"]}"#)],
        content: None,
    };
    match t.on_reply(reply, &ix).ok().unwrap() {
        TranslateAction::Ask { messages, offer_tools } => {
            assert!(!offer_tools);
            assert_eq!(messages.len(), 4);
            assert!(matches!(&messages[2], ChatMessage::AssistantToolCalls(cs) if cs.len() == 1 && cs[0].id == "call_1"));
            assert!(matches!(&messages[3], ChatMessage::Tool { call_id, content } if call_id == "call_1" && content == "Varg → 座狼"));
        }
        _ => panic!("expected a second request"),
    }
    let last = LlmReply::Choice { tool_calls: vec![], content: Some("新增了座狼。".into()) };
    match t.on_reply(last, &ix).ok().unwrap() {
        TranslateAction::Done(a) => {
            assert_eq!(a.original_text, "Added the Varg.");
            assert_eq!(a.translated_text, "新增了座狼。");
            assert_eq!(a.search_results.len(), 1);
            assert_eq!(a.search_results[0].candidates[0].translation, "座狼");
        }
        _ => panic!("expected the translation"),
    }
}

#[test]
fn translation_without_tool_calls_uses_the_reply() {
    let ix = glossary_index();
    let (mut t, _) = Translation::start("Hello");
    let reply = LlmReply::Choice { tool_calls: vec![], content: Some("你好".into()) };
    match t.on_reply(reply, &ix).ok().unwrap() {
        TranslateAction::Done(a) => {
            assert_eq!(a.translated_text, "你好");
            assert!(a.search_results.is_empty());
        }
        _ => panic!("expected the translation"),
    }
}

#[test]
fn translation_without_choice() {
    let ix = glossary_index();
    let (mut t, _) = Translation::start("Hello");
    match t.on_reply(LlmReply::NoChoice, &ix) {
        Err(AppError::LlmResponseParse(m)) => assert_eq!(m, "no choices in response"),
        _ => panic!("expected an error"),
    }
    let reply = LlmReply::Choice { tool_calls: vec![call("x", "search_po_terms", "[]")], content: None };
    assert!(matches!(t.on_reply(reply, &ix), Ok(TranslateAction::Ask { .. })));
    match t.on_reply(LlmReply::NoChoice, &ix) {
        Err(AppError::LlmResponseParse(m)) => assert_eq!(m, "no choices in final response"),
        _ => panic!("expected an error"),
    }
    let done = t.on_reply(LlmReply::Choice { tool_calls: vec![], content: None }, &ix);
    assert!(matches!(done, Ok(TranslateAction::Done(a)) if a.translated_text.is_empty()));
}

#[test]
fn translation_answers_calls_of_other_tools() {
    let ix = glossary_index();
    let (mut t, _) = Translation::start("Added the Varg.");
    let reply = LlmReply::Choice {
        tool_calls: vec![call("w1", "weather", "{}"), call("s1", "search_po_terms", r#"{"terms":["Varg"]}"#)],
        content: None,
    };
    match t.on_reply(reply, &ix).ok().unwrap() {
        TranslateAction::Ask { messages, offer_tools } => {
            assert!(!offer_tools);
            assert_eq!(messages.len(), 5);
            assert!(matches!(&messages[3], ChatMessage::Tool { call_id, content } if call_id == "w1" && content == "unknown tool: weather"));
            assert!(matches!(&messages[4], ChatMessage::Tool { call_id, content } if call_id == "s1" && content == "Varg → 座狼"));
        }
        _ => panic!("expected a second request"),
    }
}
