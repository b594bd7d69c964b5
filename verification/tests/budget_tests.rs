use openai_limiter::budget::{truncate_conversation, truncate_text, Message, Tokenizer};
use tiktoken_rs::CoreBPE;

fn bpe() -> CoreBPE {
    tiktoken_rs::o200k_base().unwrap()
}

fn count(bpe: &CoreBPE, s: &str) -> usize {
    bpe.encode_with_special_tokens(s).len()
}

/// What dropping the first `drop` tokens of `s` and decoding the tail
/// gives: the reference computation, straight through the tokenizer.
fn decode_tail(bpe: &CoreBPE, s: &str, drop: usize) -> String {
    let tokens = bpe.encode_with_special_tokens(s);
    let tail: Vec<_> = tokens[drop..].to_vec();
    let mut out = String::new();
    for piece in bpe._decode_native_and_split(tail) {
        out.push_str(&String::from_utf8_lossy(&piece));
    }
    out
}

fn msg(role: &str, content: &str) -> Message {
    Message {
        role: role.to_string(),
        content: content.to_string(),
    }
}

#[test]
fn text_within_budget_unchanged() {
    let tok = Tokenizer::new().unwrap();
    let mut content = "hello world".to_string();
    let ok = truncate_text(&tok, &mut content, 100);
    assert!(ok);
    assert_eq!(content, "hello world");
}

#[test]
fn text_over_budget_drops_exactly_budget_tokens() {
    let tok = Tokenizer::new().unwrap();
    let bpe = bpe();
    let original = "The quick brown fox jumps over the lazy dog";
    assert!(count(&bpe, original) > 3);
    let mut content = original.to_string();
    let ok = truncate_text(&tok, &mut content, 3);
    assert!(ok);
    assert_eq!(content, decode_tail(&bpe, original, 3));
    assert_ne!(content, original);
}

#[test]
fn text_far_over_budget_can_stay_over_budget() {
    // dropping exactly the budget rather than trimming down to it means a
    // text longer than twice the budget still exceeds it afterwards; this
    // asymmetry with the conversation trim is deliberate
    let tok = Tokenizer::new().unwrap();
    let bpe = bpe();
    let original = "one two three four five six seven eight nine ten";
    let budget = 2;
    assert!(count(&bpe, original) > 2 * budget);
    let mut content = original.to_string();
    let ok = truncate_text(&tok, &mut content, budget);
    assert!(ok);
    assert!(count(&bpe, &content) > budget);
}

#[test]
fn text_truncation_tolerates_multibyte_boundaries() {
    // a cut that falls inside a character's encoding must recover lossily,
    // never error; the reference computation decides the exact outcome
    let tok = Tokenizer::new().unwrap();
    let bpe = bpe();
    let original = "日本語のテキスト😀😀😀 and some more words";
    let total = count(&bpe, original);
    for budget in 1..total.min(6) {
        let mut content = original.to_string();
        let ok = truncate_text(&tok, &mut content, budget);
        assert!(ok);
        assert_eq!(content, decode_tail(&bpe, original, budget));
    }
}

#[test]
fn conversation_within_budget_noop() {
    let tok = Tokenizer::new().unwrap();
    let mut messages = vec![msg("system", "be nice"), msg("user", "hello there")];
    let ok = truncate_conversation(&tok, &mut messages, 1000);
    assert!(ok);
    assert_eq!(messages.len(), 2);
    assert_eq!(messages[0].role, "system");
    assert_eq!(messages[0].content, "be nice");
    assert_eq!(messages[1].role, "user");
    assert_eq!(messages[1].content, "hello there");
}

#[test]
fn conversation_empty_noop() {
    let tok = Tokenizer::new().unwrap();
    let mut messages: Vec<Message> = vec![];
    let ok = truncate_conversation(&tok, &mut messages, 0);
    assert!(ok);
    assert!(messages.is_empty());
}

#[test]
fn conversation_drops_oldest_then_trims_front() {
    let tok = Tokenizer::new().unwrap();
    let bpe = bpe();
    let m1 = "An old message full of early context that nobody needs anymore";
    let m2 = "A middle message with some words in it";
    let m3 = "the newest one";
    let c2 = count(&bpe, m2);
    let c3 = count(&bpe, m3);
    // a budget that forces dropping m1 whole and trimming m2: after the
    // drop, removing m2 whole would not overshoot
    let budget = c3 + 2;
    assert!(c2 + c3 > budget);
    let mut messages = vec![msg("system", m1), msg("user", m2), msg("assistant", m3)];
    let ok = truncate_conversation(&tok, &mut messages, budget);
    assert!(ok);
    assert_eq!(messages.len(), 2);
    // the oldest retained message is trimmed by exactly the excess
    let excess = c2 + c3 - budget;
    assert_eq!(messages[0].role, "user");
    assert_eq!(messages[0].content, decode_tail(&bpe, m2, excess));
    // the newest message is untouched
    assert_eq!(messages[1].role, "assistant");
    assert_eq!(messages[1].content, m3);
}

#[test]
fn conversation_budget_zero_keeps_one_empty_message() {
    let tok = Tokenizer::new().unwrap();
    let mut messages = vec![msg("user", "first words"), msg("user", "second words")];
    let ok = truncate_conversation(&tok, &mut messages, 0);
    assert!(ok);
    assert_eq!(messages.len(), 1);
    assert_eq!(messages[0].role, "user");
    assert_eq!(messages[0].content, "");
}

#[test]
fn single_message_over_budget_keeps_budget_tokens() {
    // inside a conversation the front message is trimmed by the excess,
    // keeping exactly the budget's worth of newest tokens
    let tok = Tokenizer::new().unwrap();
    let bpe = bpe();
    let m1 = "alpha beta gamma delta epsilon zeta eta theta";
    let c1 = count(&bpe, m1);
    let budget = 3;
    assert!(c1 > budget);
    let mut messages = vec![msg("user", m1)];
    let ok = truncate_conversation(&tok, &mut messages, budget);
    assert!(ok);
    assert_eq!(messages.len(), 1);
    assert_eq!(messages[0].content, decode_tail(&bpe, m1, c1 - budget));
    assert_eq!(count(&bpe, &messages[0].content), budget);
}

#[test]
fn conversation_multi_drop_matches_reference() {
    // replay the specified algorithm through the tokenizer directly and
    // compare the library's result against it
    let tok = Tokenizer::new().unwrap();
    let bpe = bpe();
    let texts = [
        "first message with plenty of early context",
        "second message also has a number of words",
        "third message",
        "fourth and newest",
    ];
    let budget = count(&bpe, texts[2]) + count(&bpe, texts[3]) + 1;
    let mut expected: Vec<(String, String)> = texts
        .iter()
        .enumerate()
        .map(|(i, t)| (format!("role{}", i), t.to_string()))
        .collect();
    let mut counts: Vec<usize> = texts.iter().map(|t| count(&bpe, t)).collect();
    let mut sum: usize = counts.iter().sum();
    assert!(sum > budget);
    while sum > budget {
        let front = counts[0];
        if sum - front > budget {
            if counts.len() > 1 {
                sum -= front;
                expected.remove(0);
                counts.remove(0);
                continue;
            }
        }
        let excess = sum - budget;
        expected[0].1 = decode_tail(&bpe, &expected[0].1.clone(), excess);
        break;
    }
    let mut messages: Vec<Message> = texts
        .iter()
        .enumerate()
        .map(|(i, t)| msg(&format!("role{}", i), t))
        .collect();
    let ok = truncate_conversation(&tok, &mut messages, budget);
    assert!(ok);
    assert_eq!(messages.len(), expected.len());
    for (m, (role, content)) in messages.iter().zip(expected.iter()) {
        assert_eq!(&m.role, role);
        assert_eq!(&m.content, content);
    }
}
