use openai_limiter::chunk::{Choice, Chunk, Delta, FinishReason};
use openai_limiter::think::{extract_cot, CotExtractor, ExtractError, ThinkTagState};

fn chunk(reasoning: Option<&str>, content: Option<&str>) -> Chunk {
    Chunk {
        id: "cmpl-1".to_string(),
        object: "chat.completion.chunk".to_string(),
        created: 123,
        model: "some-model".to_string(),
        choices: vec![Choice {
            index: 0,
            delta: Delta {
                reasoning_content: reasoning.map(|s| s.to_string()),
                content: content.map(|s| s.to_string()),
            },
            logprobs: None,
            finish_reason: None,
            stop_reason: None,
        }],
    }
}

fn ok(c: Chunk) -> Result<Chunk, String> {
    Ok(c)
}

fn delta_of(item: &Result<Chunk, ExtractError>) -> (&Option<String>, &Option<String>) {
    match item {
        Ok(c) => (
            &c.choices[0].delta.reasoning_content,
            &c.choices[0].delta.content,
        ),
        Err(e) => panic!("expected a chunk, got error {:?}", e),
    }
}

fn assert_reasoning(item: &Result<Chunk, ExtractError>, expected: &str) {
    let (r, c) = delta_of(item);
    assert_eq!(r.as_deref(), Some(expected));
    assert_eq!(*c, None);
}

fn assert_content(item: &Result<Chunk, ExtractError>, expected: &str) {
    let (r, c) = delta_of(item);
    assert_eq!(*r, None);
    assert_eq!(c.as_deref(), Some(expected));
}

#[test]
fn scenario_three_chunks() {
    // content chunks "<think>\n", "reasoning text", "</think>final answer";
    // the opening chunk is empty once the tag is stripped and the newline
    // trimmed, so it emits nothing
    let out = extract_cot(vec![
        ok(chunk(None, Some("<think>\n"))),
        ok(chunk(None, Some("reasoning text"))),
        ok(chunk(None, Some("</think>final answer"))),
    ]);
    assert_eq!(out.len(), 3);
    assert_reasoning(&out[0], "reasoning text");
    assert_reasoning(&out[1], "");
    assert_content(&out[2], "final answer");
}

#[test]
fn open_then_close_emits_exactly_two() {
    // a stream that opens the block with nothing after the tag and closes
    // it in the very next chunk yields exactly two output chunks: one with
    // reasoning only, one with content only
    let out = extract_cot(vec![
        ok(chunk(None, Some("<think>"))),
        ok(chunk(None, Some("thought</think>answer"))),
    ]);
    assert_eq!(out.len(), 2);
    assert_reasoning(&out[0], "thought");
    assert_content(&out[1], "answer");
}

#[test]
fn short_block_single_chunk() {
    let out = extract_cot(vec![ok(chunk(None, Some("<think> hi</think> done")))]);
    assert_eq!(out.len(), 2);
    assert_reasoning(&out[0], "hi");
    // the rest after the closing tag is trimmed in this path
    assert_content(&out[1], "done");
}

#[test]
fn closing_tag_at_chunk_end_emits_one() {
    let out = extract_cot(vec![ok(chunk(None, Some("<think>abc</think>")))]);
    assert_eq!(out.len(), 1);
    assert_reasoning(&out[0], "abc");
}

#[test]
fn closing_tag_at_later_chunk_end_emits_one() {
    let out = extract_cot(vec![
        ok(chunk(None, Some("<think>abc"))),
        ok(chunk(None, Some("def</think>"))),
    ]);
    assert_eq!(out.len(), 2);
    assert_reasoning(&out[0], "abc");
    assert_reasoning(&out[1], "def");
}

#[test]
fn no_tag_passthrough_forever() {
    // once classified as tagless, later think tags pass through verbatim
    let out = extract_cot(vec![
        ok(chunk(None, Some("hello"))),
        ok(chunk(None, Some("<think>not special</think>"))),
    ]);
    assert_eq!(out.len(), 2);
    assert_content(&out[0], "hello");
    assert_content(&out[1], "<think>not special</think>");
}

#[test]
fn native_reasoning_passthrough() {
    // a backend that already separates channels is left alone
    let out = extract_cot(vec![
        ok(chunk(Some("thinking..."), None)),
        ok(chunk(None, Some("<think>stays</think>"))),
    ]);
    assert_eq!(out.len(), 2);
    assert_reasoning(&out[0], "thinking...");
    assert_content(&out[1], "<think>stays</think>");
}

#[test]
fn missing_content_is_fatal() {
    let out = extract_cot(vec![
        ok(chunk(None, None)),
        ok(chunk(None, Some("never seen"))),
    ]);
    assert_eq!(out.len(), 1);
    assert!(matches!(out[0], Err(ExtractError::MissingContent)));
}

#[test]
fn empty_choices_is_fatal_and_last() {
    let bad = Chunk {
        id: "cmpl-1".to_string(),
        object: "chat.completion.chunk".to_string(),
        created: 1,
        model: "m".to_string(),
        choices: vec![],
    };
    let out = extract_cot(vec![
        ok(chunk(None, Some("hello"))),
        Ok(bad),
        ok(chunk(None, Some("never seen"))),
    ]);
    assert_eq!(out.len(), 2);
    assert_content(&out[0], "hello");
    assert!(matches!(out[1], Err(ExtractError::EmptyChoice)));
}

#[test]
fn upstream_error_is_fatal() {
    let out = extract_cot(vec![
        ok(chunk(None, Some("hello"))),
        Err("connection reset".to_string()),
        ok(chunk(None, Some("never seen"))),
    ]);
    assert_eq!(out.len(), 2);
    assert_content(&out[0], "hello");
    match &out[1] {
        Err(ExtractError::Upstream(msg)) => assert_eq!(msg, "connection reset"),
        other => panic!("expected upstream error, got {:?}", other),
    }
}

#[test]
fn heartbeat_chunks_are_suppressed() {
    let out = extract_cot(vec![
        ok(chunk(Some(""), Some(""))),
        ok(chunk(None, Some("<think>a"))),
        ok(chunk(Some(""), Some(""))),
        ok(chunk(None, Some("b</think>c"))),
    ]);
    assert_eq!(out.len(), 3);
    assert_reasoning(&out[0], "a");
    assert_reasoning(&out[1], "b");
    assert_content(&out[2], "c");
}

#[test]
fn whitespace_trimmed_at_most_once() {
    // the opening chunk's newline is trimmed (and, empty after that, the
    // chunk suppressed); later leading whitespace stays
    let out = extract_cot(vec![
        ok(chunk(None, Some("<think>\n"))),
        ok(chunk(None, Some("  indented"))),
    ]);
    assert_eq!(out.len(), 1);
    assert_reasoning(&out[0], "  indented");
}

#[test]
fn whitespace_trim_deferred_to_second_chunk() {
    // nothing to trim right after the tag, so the next chunk is trimmed once
    let out = extract_cot(vec![
        ok(chunk(None, Some("<think>x"))),
        ok(chunk(None, Some(" y"))),
        ok(chunk(None, Some(" z"))),
    ]);
    assert_eq!(out.len(), 3);
    assert_reasoning(&out[0], "x");
    assert_reasoning(&out[1], "y");
    assert_reasoning(&out[2], " z");
}

#[test]
fn fragmented_closing_tag_never_closes() {
    // the closing tag split across chunks is not reassembled: everything
    // keeps flowing to the reasoning channel
    let out = extract_cot(vec![
        ok(chunk(None, Some("<think>a"))),
        ok(chunk(None, Some("</th"))),
        ok(chunk(None, Some("ink>"))),
    ]);
    assert_eq!(out.len(), 3);
    assert_reasoning(&out[0], "a");
    assert_reasoning(&out[1], "</th");
    assert_reasoning(&out[2], "ink>");
}

#[test]
fn content_none_in_open_block_passes_through() {
    let mut c = chunk(None, None);
    c.choices[0].finish_reason = Some(FinishReason::Stop);
    let out = extract_cot(vec![ok(chunk(None, Some("<think>a"))), ok(c)]);
    assert_eq!(out.len(), 2);
    assert_reasoning(&out[0], "a");
    let (r, ct) = delta_of(&out[1]);
    assert_eq!(*r, None);
    assert_eq!(*ct, None);
    match &out[1] {
        Ok(c) => assert_eq!(c.choices[0].finish_reason, Some(FinishReason::Stop)),
        Err(_) => panic!("expected a chunk"),
    }
}

#[test]
fn metadata_and_logprobs_preserved_through_rewrite() {
    let mut c = chunk(None, Some("<think>r</think>rest"));
    c.choices[0].logprobs = Some("{\"tokens\":[]}".to_string());
    c.choices[0].stop_reason = Some("why".to_string());
    let out = extract_cot(vec![Ok(c)]);
    assert_eq!(out.len(), 2);
    for item in &out {
        match item {
            Ok(c) => {
                assert_eq!(c.id, "cmpl-1");
                assert_eq!(c.object, "chat.completion.chunk");
                assert_eq!(c.created, 123);
                assert_eq!(c.model, "some-model");
                assert_eq!(c.choices[0].logprobs.as_deref(), Some("{\"tokens\":[]}"));
                assert_eq!(c.choices[0].stop_reason.as_deref(), Some("why"));
            }
            Err(e) => panic!("expected a chunk, got {:?}", e),
        }
    }
    assert_reasoning(&out[0], "r");
    assert_content(&out[1], "rest");
}

#[test]
fn multibyte_text_splits_on_character_boundaries() {
    let out = extract_cot(vec![
        ok(chunk(None, Some("<think>日本語"))),
        ok(chunk(None, Some("の思考</think>答え"))),
    ]);
    assert_eq!(out.len(), 3);
    assert_reasoning(&out[0], "日本語");
    assert_reasoning(&out[1], "の思考");
    assert_content(&out[2], "答え");
}

#[test]
fn later_choices_are_preserved() {
    let mut c = chunk(None, Some("<think>a</think>b"));
    c.choices.push(Choice {
        index: 1,
        delta: Delta {
            reasoning_content: None,
            content: Some("second".to_string()),
        },
        logprobs: None,
        finish_reason: None,
        stop_reason: None,
    });
    let out = extract_cot(vec![Ok(c)]);
    assert_eq!(out.len(), 2);
    for item in &out {
        match item {
            Ok(c) => {
                assert_eq!(c.choices.len(), 2);
                assert_eq!(c.choices[1].index, 1);
                assert_eq!(c.choices[1].delta.content.as_deref(), Some("second"));
            }
            Err(e) => panic!("expected a chunk, got {:?}", e),
        }
    }
}

#[test]
fn pushable_extractor_matches_batch_and_halts() {
    let mut ex = CotExtractor::new();
    assert_eq!(ex.state, ThinkTagState::Init);
    assert!(!ex.halted);
    let first = ex.push(ok(chunk(None, Some("<think>a"))));
    assert_eq!(first.len(), 1);
    assert_reasoning(&first[0], "a");
    assert_eq!(
        ex.state,
        ThinkTagState::Begin {
            trimmed_follow_new_line: false
        }
    );
    let second = ex.push(Err("gone".to_string()));
    assert_eq!(second.len(), 1);
    assert!(matches!(second[0], Err(ExtractError::Upstream(_))));
    assert!(ex.halted);
    // once halted, nothing more comes out
    let third = ex.push(ok(chunk(None, Some("more"))));
    assert!(third.is_empty());
}
