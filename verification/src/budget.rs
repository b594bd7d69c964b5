//! The token-budget truncation engine.
//!
//! Given a tokenizer and a budget, it decides what to drop or trim from a
//! single prompt text or from an ordered conversation so that the encoded
//! size fits the budget. Truncation only ever removes from the oldest end
//! of a conversation and partially trims at most one message, the oldest
//! retained one, keeping recent context over older context.

use vstd::prelude::*;
use vstd::string::StringExecFns;

verus! {

/// One conversation message, oldest-first in a conversation.
#[derive(Debug)]
pub struct Message {
    pub role: String,
    pub content: String,
}

/// Mathematical model of a `Message`.
#[verifier::ext_equal]
pub struct MessageView {
    pub role: Seq<char>,
    pub content: Seq<char>,
}

impl View for Message {
    type V = MessageView;

    open spec fn view(&self) -> MessageView {
        MessageView { role: self.role@, content: self.content@ }
    }
}

/// Model of a conversation.
pub open spec fn msgs_view(v: Seq<Message>) -> Seq<MessageView> {
    v.map_values(|m: Message| m@)
}

/// Declares `tiktoken_rs::CoreBPE`, the byte-pair encoder, so a value of it
/// can stand in a field; it stays opaque to the proofs.
#[verifier::external_type_specification]
#[verifier::external_body]
pub struct ExCoreBPE(tiktoken_rs::CoreBPE);

/// The ordered token ids that the fixed tokenizer assigns to a text. Every
/// `Tokenizer` wraps the one embedded vocabulary, and encoding is a pure
/// function of the text, so the result has a name rather than a definition.
pub uninterp spec fn tokens_of(s: Seq<char>) -> Seq<u32>;

/// Whether the fixed tokenizer can encode a text: its regex engine either
/// succeeds or gives up on a text deterministically, so success too is a
/// function of the text alone. In practice every text is encodable.
pub uninterp spec fn encodable(s: Seq<char>) -> bool;

/// A token id that the fixed tokenizer's decoding tables know. Encoding
/// only ever produces such ids, and only such ids may be decoded.
pub uninterp spec fn token_valid(t: u32) -> bool;

/// The byte piece of each single token id, in order: what the fixed
/// tokenizer's decoding tables hold for it.
pub uninterp spec fn token_bytes(ts: Seq<u32>) -> Seq<Seq<u8>>;

/// The characters that lossy UTF-8 decoding produces from these bytes: a
/// pure function of the bytes alone.
pub uninterp spec fn lossy_utf8(bs: Seq<u8>) -> Seq<char>;

/// Each token's bytes decoded lossily on its own, concatenated in order.
pub open spec fn lossy_concat(pieces: Seq<Seq<u8>>) -> Seq<char>
    decreases pieces.len(),
{
    if pieces.len() == 0 {
        Seq::empty()
    } else {
        lossy_utf8(pieces[0]) + lossy_concat(pieces.drop_first())
    }
}

/// The text recovered from a token sequence: per-token lossy decoding, so a
/// cut that does not fall on a text-encoding boundary yields replacement
/// characters rather than an error.
pub open spec fn lossy_decode_of(ts: Seq<u32>) -> Seq<char> {
    lossy_concat(token_bytes(ts))
}

/// The byte-pair tokenizer this crate uses, consumed as a black-box
/// capability: encode text to token ids, decode token ids back to text.
pub struct Tokenizer {
    bpe: tiktoken_rs::CoreBPE,
}

impl Tokenizer {
    /// Relies on `tiktoken_rs::o200k_base`: builds the one tokenizer this
    /// crate ever uses, from a vocabulary embedded in the library, and
    /// fails only if that embedded data cannot be parsed.
    #[verifier::external_body]
    pub fn new() -> (r: Option<Tokenizer>) {
        match tiktoken_rs::o200k_base() {
            Ok(bpe) => Some(Tokenizer { bpe }),
            Err(_) => None,
        }
    }

    /// Relies on `tiktoken_rs::CoreBPE::encode` with every special token
    /// allowed. For the fixed vocabulary the result is a function of the
    /// text alone, named `tokens_of`; every returned id is present in the
    /// decoder tables, which are built as the inverse of the encoder
    /// tables. The call fails only on a regex engine error, which for the
    /// fixed pattern is itself decided by the text alone, named `encodable`.
    #[verifier::external_body]
    fn encode(&self, text: &str) -> (r: Option<Vec<u32>>)
        ensures
            r is Some <==> encodable(text@),
            (match r {
                Option::Some(ts) => ts@ == tokens_of(text@) && (forall|i: int|
                    0 <= i < ts@.len() ==> token_valid(ts@[i])),
                Option::None => true,
            }),
    {
        let allowed = self.bpe.special_tokens();
        match self.bpe.encode(text, &allowed) {
            Ok(pair) => Some(pair.0),
            Err(_) => None,
        }
    }

    /// Relies on `tiktoken_rs::CoreBPE::_decode_native_and_split`: one byte
    /// piece per token id, looked up in the decoder tables, so for the
    /// fixed vocabulary a function of the ids alone, named `token_bytes`.
    /// The lookup panics on an unknown id, so only valid ids may be passed.
    #[verifier::external_body]
    fn decode_pieces(&self, tokens: Vec<u32>) -> (r: Vec<Vec<u8>>)
        requires
            forall|i: int| 0 <= i < tokens@.len() ==> token_valid(tokens@[i]),
        ensures
            r@.map_values(|p: Vec<u8>| p@) == token_bytes(tokens@),
    {
        self.bpe._decode_native_and_split(tokens).collect()
    }

    /// Decode a token sequence back to text, tolerating cuts that fall
    /// inside a character's encoding.
    fn decode_lossy(&self, tokens: Vec<u32>) -> (r: String)
        requires
            forall|i: int| 0 <= i < tokens@.len() ==> token_valid(tokens@[i]),
        ensures
            r@ == lossy_decode_of(tokens@),
    {
        let ghost tsv = tokens@;
        let pieces = self.decode_pieces(tokens);
        let ghost pv = pieces@.map_values(|p: Vec<u8>| p@);
        let mut s = String::new();
        let mut i: usize = 0;
        proof {
            assert(pv.skip(0) =~= pv);
            assert(s@ + lossy_concat(pv.skip(0)) =~= lossy_decode_of(tsv));
        }
        while i < pieces.len()
            invariant
                i <= pieces@.len(),
                pv == pieces@.map_values(|p: Vec<u8>| p@),
                pv == token_bytes(tsv),
                s@ + lossy_concat(pv.skip(i as int)) == lossy_decode_of(tsv),
            decreases pieces@.len() - i,
        {
            let piece = utf8_lossy(&pieces[i]);
            proof {
                assert(pv.skip(i as int)[0] == pv[i as int]);
                assert(pv.skip(i as int).drop_first() =~= pv.skip(i + 1));
                assert(s@ + piece@ + lossy_concat(pv.skip(i + 1)) =~= s@ + lossy_concat(
                    pv.skip(i as int),
                ));
            }
            s.append(piece.as_str());
            i = i + 1;
        }
        proof {
            assert(pv.skip(pieces@.len() as int) =~= Seq::<Seq<u8>>::empty());
            assert(s@ + lossy_concat(pv.skip(pieces@.len() as int)) =~= s@);
        }
        s
    }
}

/// Relies on `String::from_utf8_lossy`: a pure function of the bytes alone,
/// named `lossy_utf8`.
#[verifier::external_body]
fn utf8_lossy(bytes: &Vec<u8>) -> (r: String)
    ensures
        r@ == lossy_utf8(bytes@),
{
    String::from_utf8_lossy(bytes).into_owned()
}

/// What single-text truncation produces: the text unchanged when its
/// encoding fits the budget, otherwise the lossy decoding of the encoding
/// with its first `budget` tokens dropped.
///
/// Dropping exactly `budget` tokens, rather than trimming down to `budget`
/// tokens remaining, means a text longer than twice the budget can still
/// exceed it afterwards; this asymmetry with the conversation trim is
/// deliberate and kept as is.
pub open spec fn spec_truncate_text(s: Seq<char>, budget: nat) -> Seq<char> {
    if tokens_of(s).len() <= budget {
        s
    } else {
        lossy_decode_of(tokens_of(s).skip(budget as int))
    }
}

/// The token count of one message's content.
pub open spec fn token_len(m: MessageView) -> nat {
    tokens_of(m.content).len()
}

/// The total token count of a conversation.
pub open spec fn total_tokens(ms: Seq<MessageView>) -> nat
    decreases ms.len(),
{
    if ms.len() == 0 {
        0
    } else {
        token_len(ms[0]) + total_tokens(ms.drop_first())
    }
}

/// `m` with its content replaced and its role kept.
pub open spec fn with_content(m: MessageView, c: Seq<char>) -> MessageView {
    MessageView { role: m.role, content: c }
}

/// What conversation truncation produces. While dropping the whole oldest
/// message still leaves more than the budget, it is dropped; when exactly
/// one oversized message would remain, that message falls back to
/// single-text truncation with the full budget; otherwise the oldest
/// retained message alone is trimmed by exactly the excess over the budget,
/// and every later message is untouched.
pub open spec fn spec_truncate_conversation(ms: Seq<MessageView>, budget: nat) -> Seq<MessageView>
    decreases ms.len(),
{
    if total_tokens(ms) <= budget {
        ms
    } else {
        let len0 = token_len(ms[0]);
        if total_tokens(ms) - len0 > budget {
            if ms.len() > 1 {
                spec_truncate_conversation(ms.drop_first(), budget)
            } else {
                seq![with_content(ms[0], spec_truncate_text(ms[0].content, budget))]
            }
        } else {
            let excess = total_tokens(ms) - budget;
            seq![
                with_content(ms[0], lossy_decode_of(tokens_of(ms[0].content).skip(excess))),
            ] + ms.drop_first()
        }
    }
}

/// Copy `tokens[from..]` into a fresh vector.
fn token_tail(tokens: &Vec<u32>, from: usize) -> (r: Vec<u32>)
    requires
        from <= tokens@.len(),
    ensures
        r@ == tokens@.skip(from as int),
{
    let mut r: Vec<u32> = Vec::new();
    let mut q: usize = from;
    while q < tokens.len()
        invariant
            from <= q <= tokens@.len(),
            r@ =~= tokens@.subrange(from as int, q as int),
        decreases tokens@.len() - q,
    {
        r.push(tokens[q]);
        q = q + 1;
    }
    proof {
        assert(r@ =~= tokens@.skip(from as int));
    }
    r
}

/// Truncate one prompt text to the budget, as `spec_truncate_text` says.
/// It succeeds on exactly the texts the tokenizer can encode, and leaves
/// the text unchanged on the rest.
pub fn truncate_text(tok: &Tokenizer, content: &mut String, budget: usize) -> (ok: bool)
    ensures
        ok == encodable(old(content)@),
        ok ==> final(content)@ == spec_truncate_text(old(content)@, budget as nat),
        !ok ==> final(content)@ == old(content)@,
{
    let tokens = match tok.encode(content.as_str()) {
        Option::Some(ts) => ts,
        Option::None => {
            return false;
        },
    };
    if tokens.len() <= budget {
        return true;
    }
    let tail = token_tail(&tokens, budget);
    let decoded = tok.decode_lossy(tail);
    *content = decoded;
    true
}

/// Every message's content can be encoded.
pub open spec fn all_encodable(ms: Seq<MessageView>) -> bool {
    forall|i: int| 0 <= i < ms.len() ==> encodable(ms[i].content)
}

/// Truncate a conversation to the budget, as `spec_truncate_conversation`
/// says. It succeeds exactly when the tokenizer can encode every message
/// and the conversation's total token count fits a machine word, and
/// leaves the conversation unchanged otherwise.
pub fn truncate_conversation(tok: &Tokenizer, messages: &mut Vec<Message>, budget: usize) -> (ok:
    bool)
    ensures
        ok == (all_encodable(msgs_view(old(messages)@)) && total_tokens(msgs_view(old(messages)@))
            <= usize::MAX),
        ok ==> msgs_view(final(messages)@) == spec_truncate_conversation(
            msgs_view(old(messages)@),
            budget as nat,
        ),
        !ok ==> final(messages)@ == old(messages)@,
{
    let ghost mv = msgs_view(old(messages)@);
    // encode every message once and sum the counts
    let mut lists: Vec<Vec<u32>> = Vec::new();
    let mut sum: usize = 0;
    let mut i: usize = 0;
    let n = messages.len();
    proof {
        assert(mv.skip(0) =~= mv);
    }
    while i < n
        invariant
            messages@ == old(messages)@,
            n == messages@.len(),
            i <= n,
            mv == msgs_view(messages@),
            mv.len() == n,
            lists@.len() == i,
            forall|q: int| 0 <= q < i ==> encodable(mv[q].content),
            forall|q: int|
                0 <= q < i ==> lists@[q]@ == tokens_of(mv[q].content) && (forall|r: int|
                    0 <= r < lists@[q]@.len() ==> token_valid(lists@[q]@[r])),
            sum + total_tokens(mv.skip(i as int)) == total_tokens(mv),
        decreases n - i,
    {
        let ts = match tok.encode(messages[i].content.as_str()) {
            Option::Some(ts) => ts,
            Option::None => {
                proof {
                    assert(mv[i as int] == messages@[i as int]@);
                    assert(!all_encodable(mv));
                }
                return false;
            },
        };
        proof {
            assert(mv[i as int] == messages@[i as int]@);
            assert(mv.skip(i as int)[0] == mv[i as int]);
            assert(mv.skip(i as int).drop_first() =~= mv.skip(i + 1));
        }
        sum = match sum.checked_add(ts.len()) {
            Option::Some(s) => s,
            Option::None => {
                proof {
                    assert(total_tokens(mv.skip(i as int)) >= token_len(mv[i as int]));
                    assert(total_tokens(mv) > usize::MAX);
                }
                return false;
            },
        };
        lists.push(ts);
        i = i + 1;
    }
    proof {
        assert(mv.skip(n as int) =~= Seq::<MessageView>::empty());
        assert(sum == total_tokens(mv));
        assert(all_encodable(mv));
    }
    if sum <= budget {
        return true;
    }
    // drop the oldest message while doing so still leaves more than the
    // budget; one message always survives
    let mut j: usize = 0;
    let mut len0: usize = lists[0].len();
    proof {
        assert(mv.skip(0) =~= mv);
        assert(mv.skip(0)[0] == mv[0]);
    }
    while sum - len0 > budget
        invariant
            n == mv.len(),
            lists@.len() == n,
            j < n,
            forall|q: int|
                0 <= q < n ==> lists@[q]@ == tokens_of(mv[q].content) && (forall|r: int|
                    0 <= r < lists@[q]@.len() ==> token_valid(lists@[q]@[r])),
            sum == total_tokens(mv.skip(j as int)),
            sum > budget,
            len0 == token_len(mv[j as int]),
            len0 <= sum,
            spec_truncate_conversation(mv, budget as nat) == spec_truncate_conversation(
                mv.skip(j as int),
                budget as nat,
            ),
            messages@ == old(messages)@,
            mv == msgs_view(messages@),
        decreases n - j,
    {
        proof {
            assert(mv.skip(j as int)[0] == mv[j as int]);
            assert(mv.skip(j as int).drop_first() =~= mv.skip(j + 1));
            // dropping must leave at least one message: were this the last
            // one, nothing would remain and nothing could still exceed the
            // budget
            if j + 1 == n {
                assert(mv.skip(j + 1) =~= Seq::<MessageView>::empty());
                assert(total_tokens(mv.skip(j + 1)) == 0);
                assert(false);
            }
            assert(mv.skip(j + 1)[0] == mv[j + 1]);
            assert(mv.skip(j + 1).drop_first() =~= mv.skip(j + 2));
            assert(total_tokens(mv.skip(j + 1)) == token_len(mv[j + 1]) + total_tokens(
                mv.skip(j + 2),
            ));
        }
        sum = sum - len0;
        j = j + 1;
        len0 = lists[j].len();
    }
    // the oldest retained message alone is trimmed by the excess
    let excess = sum - budget;
    proof {
        assert(mv.skip(j as int)[0] == mv[j as int]);
        assert(mv.skip(j as int).drop_first() =~= mv.skip(j + 1));
        assert(0 < excess <= len0);
    }
    let tail = token_tail(&lists[j], excess);
    let decoded = tok.decode_lossy(tail);
    // remove the dropped prefix and rebuild the trimmed front message
    let mut d: usize = 0;
    while d < j
        invariant
            d <= j,
            j < n,
            n == old(messages)@.len(),
            messages@ =~= old(messages)@.skip(d as int),
        decreases j - d,
    {
        let _dropped = messages.remove(0);
        proof {
            assert(old(messages)@.skip(d as int).remove(0) =~= old(messages)@.skip(d + 1));
        }
        d = d + 1;
    }
    let front = messages.remove(0);
    let trimmed = Message { role: front.role, content: decoded };
    messages.insert(0, trimmed);
    proof {
        assert(front@ == mv[j as int]);
        assert(msgs_view(messages@) =~= spec_truncate_conversation(mv, budget as nat));
    }
    true
}

/// Law: a conversation whose total token count is within the budget is
/// left unchanged by truncation.
pub proof fn lemma_truncate_within_budget_noop(ms: Seq<MessageView>, budget: nat)
    requires
        total_tokens(ms) <= budget,
    ensures
        spec_truncate_conversation(ms, budget) == ms,
{
}

/// How many oldest messages conversation truncation drops whole: one while
/// dropping the front still leaves more than the budget and more than one
/// message remains.
pub open spec fn spec_drop_count(ms: Seq<MessageView>, budget: nat) -> nat
    decreases ms.len(),
{
    if ms.len() > 1 && total_tokens(ms) - token_len(ms[0]) > budget {
        1 + spec_drop_count(ms.drop_first(), budget)
    } else {
        0
    }
}

proof fn lemma_drop_phase(ms: Seq<MessageView>, budget: nat)
    requires
        total_tokens(ms) > budget,
    ensures
        ({
            let k = spec_drop_count(ms, budget) as int;
            &&& k < ms.len()
            &&& total_tokens(ms.skip(k)) > budget
            &&& total_tokens(ms.skip(k)) - token_len(ms[k]) <= budget
            &&& spec_truncate_conversation(ms, budget) == spec_truncate_conversation(
                ms.skip(k),
                budget,
            )
        }),
    decreases ms.len(),
{
    if ms.len() == 0 {
        assert(total_tokens(ms) == 0);
    } else if ms.len() > 1 && total_tokens(ms) - token_len(ms[0]) > budget {
        assert(total_tokens(ms.drop_first()) == total_tokens(ms) - token_len(ms[0]));
        lemma_drop_phase(ms.drop_first(), budget);
        let k = spec_drop_count(ms, budget) as int;
        assert(k == 1 + spec_drop_count(ms.drop_first(), budget));
        assert(ms.drop_first().skip(k - 1) =~= ms.skip(k));
        assert(ms.drop_first()[k - 1] == ms[k]);
    } else {
        assert(ms.skip(0) =~= ms);
        if ms.len() == 1 {
            assert(ms.drop_first().len() == 0);
            assert(total_tokens(ms) == token_len(ms[0]));
        }
    }
}

/// Law: for a conversation over budget, dropping the oldest message while
/// more than the budget would remain terminates, at a retained suffix whose
/// token total exceeds the budget by no more than its own front message's
/// length; the trim removes exactly that excess from the front message, so
/// that in exact token arithmetic the retained total is exactly the budget;
/// and every message after the trimmed one is kept verbatim.
pub proof fn lemma_truncate_over_budget(ms: Seq<MessageView>, budget: nat)
    requires
        total_tokens(ms) > budget,
    ensures
        ({
            let k = spec_drop_count(ms, budget) as int;
            let excess = total_tokens(ms.skip(k)) - budget;
            &&& k < ms.len()
            &&& total_tokens(ms.skip(k)) <= budget + token_len(ms[k])
            &&& 0 < excess <= token_len(ms[k])
            &&& spec_truncate_conversation(ms, budget) == seq![
                with_content(ms[k], lossy_decode_of(tokens_of(ms[k].content).skip(excess))),
            ] + ms.skip(k + 1)
            &&& token_len(ms[k]) - excess + total_tokens(ms.skip(k + 1)) == budget
        }),
{
    lemma_drop_phase(ms, budget);
    let k = spec_drop_count(ms, budget) as int;
    assert(ms.skip(k)[0] == ms[k]);
    assert(ms.skip(k).drop_first() =~= ms.skip(k + 1));
    assert(total_tokens(ms.skip(k)) == token_len(ms[k]) + total_tokens(ms.skip(k + 1)));
}

/// Law: truncation never reorders or mutates any message except the oldest
/// retained one, whose role it keeps: the result is a suffix of the
/// conversation with at most its first message's content changed, and the
/// whole conversation when it was within budget.
pub proof fn lemma_truncate_preserves_tail(ms: Seq<MessageView>, budget: nat)
    ensures
        ({
            let k = spec_drop_count(ms, budget) as int;
            let r = spec_truncate_conversation(ms, budget);
            &&& 0 <= k <= ms.len()
            &&& r.len() == ms.len() - k
            &&& (forall|i: int| 1 <= i < r.len() ==> r[i] == ms[k + i])
            &&& (r.len() > 0 ==> r[0].role == ms[k].role)
            &&& (total_tokens(ms) <= budget ==> r == ms)
        }),
{
    let k = spec_drop_count(ms, budget) as int;
    let r = spec_truncate_conversation(ms, budget);
    if total_tokens(ms) <= budget {
        if ms.len() > 1 {
            assert(total_tokens(ms) - token_len(ms[0]) <= budget);
        }
        assert(k == 0);
    } else {
        lemma_truncate_over_budget(ms, budget);
        let excess = total_tokens(ms.skip(k)) - budget;
        assert(r == seq![
            with_content(ms[k], lossy_decode_of(tokens_of(ms[k].content).skip(excess))),
        ] + ms.skip(k + 1));
        assert(forall|i: int| 1 <= i < r.len() ==> r[i] == ms.skip(k + 1)[i - 1]);
    }
}

} // verus!
