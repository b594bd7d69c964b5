//! The incremental think-tag extraction state machine.
//!
//! It consumes an ordered sequence of chunk-or-error items and produces an
//! ordered sequence of chunk-or-error items, splitting `<think>...</think>`
//! text out of the `content` channel into the `reasoning_content` channel,
//! entirely incrementally: zero, one or two output items per input item,
//! order preserved, no read-ahead, and the first malformed item or upstream
//! error terminates the output.

use vstd::prelude::*;
use vstd::string::StrSliceExecFns;
use vstd::string::StringExecFns;
use crate::chunk::{Chunk, ChunkView, Delta, DeltaView, opt_text_view, spec_with_delta,
    chunk_with_delta};
use crate::text::{seq_starts_with, str_starts_with, spec_find, str_find, trim_start_spec,
    str_trim_start, lemma_trim_is_suffix};

verus! {

/// The classification state of one streaming response.
#[derive(Clone, Copy, PartialEq, Eq, Structural, Debug)]
pub enum ThinkTagState {
    /// No classification yet.
    Init,
    /// Inside an open think block; the flag records whether the whitespace
    /// right after the opening tag has already been stripped (that happens
    /// at most once per response).
    Begin { trimmed_follow_new_line: bool },
    /// The think block ended, or the backend natively separates reasoning:
    /// remaining items pass through verbatim.
    End,
    /// The response never opened a think block: remaining items pass
    /// through verbatim.
    NoTag,
}

/// Why the extractor terminated the output stream.
#[derive(Debug, PartialEq, Eq)]
pub enum ExtractError {
    /// An error item arrived from upstream and is forwarded as-is.
    Upstream(String),
    /// A chunk arrived with an empty `choices` sequence.
    EmptyChoice,
    /// Neither `reasoning_content` nor `content` was populated in a state
    /// where content was required.
    MissingContent,
}

/// Mathematical model of an `ExtractError`.
#[verifier::ext_equal]
pub enum ExtractErrorView {
    Upstream(Seq<char>),
    EmptyChoice,
    MissingContent,
}

impl View for ExtractError {
    type V = ExtractErrorView;

    open spec fn view(&self) -> ExtractErrorView {
        match self {
            ExtractError::Upstream(s) => ExtractErrorView::Upstream(s@),
            ExtractError::EmptyChoice => ExtractErrorView::EmptyChoice,
            ExtractError::MissingContent => ExtractErrorView::MissingContent,
        }
    }
}

/// Model of one input item: a parsed chunk, or an upstream error message.
pub open spec fn in_item_view(x: Result<Chunk, String>) -> Result<ChunkView, Seq<char>> {
    match x {
        Result::Ok(c) => Result::Ok(c@),
        Result::Err(e) => Result::Err(e@),
    }
}

/// Model of an input item sequence.
pub open spec fn in_items_view(v: Seq<Result<Chunk, String>>) -> Seq<
    Result<ChunkView, Seq<char>>,
> {
    v.map_values(|x: Result<Chunk, String>| in_item_view(x))
}

/// Model of one output item.
pub open spec fn out_item_view(x: Result<Chunk, ExtractError>) -> Result<
    ChunkView,
    ExtractErrorView,
> {
    match x {
        Result::Ok(c) => Result::Ok(c@),
        Result::Err(e) => Result::Err(e@),
    }
}

/// Model of an output item sequence.
pub open spec fn out_items_view(v: Seq<Result<Chunk, ExtractError>>) -> Seq<
    Result<ChunkView, ExtractErrorView>,
> {
    v.map_values(|x: Result<Chunk, ExtractError>| out_item_view(x))
}

/// The literal opening tag.
pub open spec fn think_begin_tag() -> Seq<char> {
    "<think>"@
}

/// The literal closing tag.
pub open spec fn think_end_tag() -> Seq<char> {
    "</think>"@
}

/// A channel that is present but empty.
pub open spec fn is_empty_text(o: Option<Seq<char>>) -> bool {
    match o {
        Option::Some(s) => s.len() == 0,
        Option::None => false,
    }
}

/// A heartbeat delta: both channels present and empty. Such input items are
/// suppressed, whatever the state.
pub open spec fn is_heartbeat(d: DeltaView) -> bool {
    is_empty_text(d.reasoning_content) && is_empty_text(d.content)
}

/// A delta carrying only reasoning text.
pub open spec fn reasoning_delta(s: Seq<char>) -> DeltaView {
    DeltaView { reasoning_content: Option::Some(s), content: Option::None }
}

/// A delta carrying only content text.
pub open spec fn content_delta(s: Seq<char>) -> DeltaView {
    DeltaView { reasoning_content: Option::None, content: Option::Some(s) }
}

/// What one step of the extractor does: the successor state, the output
/// items emitted for this input item, and whether the output stream
/// terminates here.
#[verifier::ext_equal]
pub struct StepSpec {
    pub state: ThinkTagState,
    pub outputs: Seq<Result<ChunkView, ExtractErrorView>>,
    pub halt: bool,
}

/// Output items when the closing tag occurs in `t`: a chunk carrying the
/// text before the tag as reasoning, then, unless the tag sits at the very
/// end of `t`, a chunk carrying the text after it as content (leading
/// whitespace trimmed only when `trim_after` holds).
pub open spec fn spec_close_outputs(c: ChunkView, t: Seq<char>, trim_after: bool) -> Seq<
    Result<ChunkView, ExtractErrorView>,
> {
    let i = spec_find(t, think_end_tag(), 0);
    let first = Result::<ChunkView, ExtractErrorView>::Ok(
        spec_with_delta(c, reasoning_delta(t.take(i))),
    );
    if i + think_end_tag().len() == t.len() {
        seq![first]
    } else {
        let after = t.skip(i + think_end_tag().len());
        let emitted = if trim_after {
            trim_start_spec(after)
        } else {
            after
        };
        seq![first, Result::<ChunkView, ExtractErrorView>::Ok(
            spec_with_delta(c, content_delta(emitted)),
        )]
    }
}

/// One step from the `Init` state, on a non-heartbeat chunk with at least
/// one choice.
pub open spec fn spec_step_init(c: ChunkView) -> StepSpec {
    let d = c.choices[0].delta;
    if d.reasoning_content is Some {
        // the backend already separates channels
        StepSpec { state: ThinkTagState::End, outputs: seq![Result::Ok(c)], halt: false }
    } else {
        match d.content {
            Option::None => StepSpec {
                state: ThinkTagState::Init,
                outputs: seq![
                    Result::<ChunkView, ExtractErrorView>::Err(ExtractErrorView::MissingContent),
                ],
                halt: true,
            },
            Option::Some(s) => {
                if !seq_starts_with(s, think_begin_tag()) {
                    StepSpec {
                        state: ThinkTagState::NoTag,
                        outputs: seq![Result::Ok(c)],
                        halt: false,
                    }
                } else {
                    let rem = s.skip(think_begin_tag().len() as int);
                    let t = trim_start_spec(rem);
                    let flag = t != rem;
                    if spec_find(t, think_end_tag(), 0) == -1 {
                        if t.len() == 0 {
                            // nothing is left of the opening chunk once the
                            // tag is stripped and the whitespace trimmed:
                            // open the block but emit nothing for it
                            StepSpec {
                                state: ThinkTagState::Begin { trimmed_follow_new_line: flag },
                                outputs: Seq::empty(),
                                halt: false,
                            }
                        } else {
                            StepSpec {
                                state: ThinkTagState::Begin { trimmed_follow_new_line: flag },
                                outputs: seq![
                                    Result::Ok(spec_with_delta(c, reasoning_delta(t))),
                                ],
                                halt: false,
                            }
                        }
                    } else {
                        StepSpec {
                            state: ThinkTagState::End,
                            outputs: spec_close_outputs(c, t, true),
                            halt: false,
                        }
                    }
                }
            },
        }
    }
}

/// One step from the `Begin` state, on a non-heartbeat chunk with at least
/// one choice.
pub open spec fn spec_step_begin(c: ChunkView, trimmed: bool) -> StepSpec {
    let d = c.choices[0].delta;
    match d.content {
        Option::None => StepSpec {
            state: ThinkTagState::Begin { trimmed_follow_new_line: trimmed },
            outputs: seq![Result::Ok(c)],
            halt: false,
        },
        Option::Some(s) => {
            if spec_find(s, think_end_tag(), 0) == -1 {
                let t = if trimmed {
                    s
                } else {
                    trim_start_spec(s)
                };
                StepSpec {
                    state: ThinkTagState::Begin { trimmed_follow_new_line: true },
                    outputs: seq![Result::Ok(spec_with_delta(c, reasoning_delta(t)))],
                    halt: false,
                }
            } else {
                StepSpec {
                    state: ThinkTagState::End,
                    outputs: spec_close_outputs(c, s, false),
                    halt: false,
                }
            }
        },
    }
}

/// One step of the extractor on one input item.
pub open spec fn spec_step(state: ThinkTagState, item: Result<ChunkView, Seq<char>>) -> StepSpec {
    match item {
        Result::Err(msg) => StepSpec {
            state,
            outputs: seq![
                Result::<ChunkView, ExtractErrorView>::Err(ExtractErrorView::Upstream(msg)),
            ],
            halt: true,
        },
        Result::Ok(c) => {
            if c.choices.len() == 0 {
                StepSpec {
                    state,
                    outputs: seq![
                        Result::<ChunkView, ExtractErrorView>::Err(ExtractErrorView::EmptyChoice),
                    ],
                    halt: true,
                }
            } else if is_heartbeat(c.choices[0].delta) {
                StepSpec { state, outputs: Seq::empty(), halt: false }
            } else {
                match state {
                    ThinkTagState::Init => spec_step_init(c),
                    ThinkTagState::Begin { trimmed_follow_new_line } => spec_step_begin(
                        c,
                        trimmed_follow_new_line,
                    ),
                    ThinkTagState::End => StepSpec {
                        state,
                        outputs: seq![Result::Ok(c)],
                        halt: false,
                    },
                    ThinkTagState::NoTag => StepSpec {
                        state,
                        outputs: seq![Result::Ok(c)],
                        halt: false,
                    },
                }
            }
        },
    }
}

/// The whole output sequence of the extractor started in `state` on the
/// input sequence `items`.
pub open spec fn spec_extract_from(
    state: ThinkTagState,
    items: Seq<Result<ChunkView, Seq<char>>>,
) -> Seq<Result<ChunkView, ExtractErrorView>>
    decreases items.len(),
{
    if items.len() == 0 {
        Seq::empty()
    } else {
        let st = spec_step(state, items[0]);
        if st.halt {
            st.outputs
        } else {
            st.outputs + spec_extract_from(st.state, items.drop_first())
        }
    }
}

/// The whole output sequence of the extractor, from the initial state.
pub open spec fn spec_extract(items: Seq<Result<ChunkView, Seq<char>>>) -> Seq<
    Result<ChunkView, ExtractErrorView>,
> {
    spec_extract_from(ThinkTagState::Init, items)
}

/// Borrow the text of a channel that is known to be present.
fn opt_as_str<'a>(o: &'a Option<String>) -> (r: &'a str)
    requires
        opt_text_view(*o) is Some,
    ensures
        Option::Some(r@) == opt_text_view(*o),
{
    match o {
        Option::Some(s) => s.as_str(),
        Option::None => vstd::pervasive::unreached(),
    }
}

/// A channel that is present but empty, executably.
fn opt_is_empty_text(o: &Option<String>) -> (b: bool)
    ensures
        b == is_empty_text(opt_text_view(*o)),
{
    match o {
        Option::Some(s) => s.as_str().is_empty(),
        Option::None => false,
    }
}

/// One step from `Init` on a non-heartbeat chunk with at least one choice.
fn step_init(chunk: Chunk) -> (r: (ThinkTagState, Vec<Result<Chunk, ExtractError>>, bool))
    requires
        chunk.choices.len() >= 1,
        !is_heartbeat(chunk@.choices[0].delta),
    ensures
        r.0 == spec_step_init(chunk@).state,
        out_items_view(r.1@) == spec_step_init(chunk@).outputs,
        r.2 == spec_step_init(chunk@).halt,
{
    let ghost cv = chunk@;
    if chunk.choices[0].delta.reasoning_content.is_some() {
        let mut out: Vec<Result<Chunk, ExtractError>> = Vec::new();
        out.push(Result::Ok(chunk));
        proof {
            assert(out_items_view(out@) =~= spec_step_init(cv).outputs);
        }
        return (ThinkTagState::End, out, false);
    }
    if chunk.choices[0].delta.content.is_none() {
        let mut out: Vec<Result<Chunk, ExtractError>> = Vec::new();
        out.push(Result::Err(ExtractError::MissingContent));
        proof {
            assert(out_items_view(out@) =~= spec_step_init(cv).outputs);
        }
        return (ThinkTagState::Init, out, true);
    }
    let s = opt_as_str(&chunk.choices[0].delta.content);
    let ghost sv = s@;
    if !str_starts_with(s, "<think>") {
        let mut out: Vec<Result<Chunk, ExtractError>> = Vec::new();
        out.push(Result::Ok(chunk));
        proof {
            assert(out_items_view(out@) =~= spec_step_init(cv).outputs);
        }
        return (ThinkTagState::NoTag, out, false);
    }
    proof {
        reveal_strlit("<think>");
        reveal_strlit("</think>");
        assert(think_begin_tag().len() == 7);
        assert(think_end_tag().len() == 8);
    }
    let n = s.unicode_len();
    let rem = s.substring_char(7, n);
    proof {
        assert(rem@ =~= sv.skip(think_begin_tag().len() as int));
    }
    let t = str_trim_start(rem);
    let rlen = rem.unicode_len();
    let tlen = t.unicode_len();
    let flag = tlen != rlen;
    proof {
        lemma_trim_is_suffix(rem@);
        if t@.len() == rem@.len() {
            assert(rem@.skip(0) =~= rem@);
        }
        assert(flag == (trim_start_spec(rem@) != rem@));
    }
    match str_find(t, "</think>") {
        Option::None => {
            if tlen == 0 {
                let out: Vec<Result<Chunk, ExtractError>> = Vec::new();
                proof {
                    assert(out_items_view(out@) =~= spec_step_init(cv).outputs);
                }
                return (ThinkTagState::Begin { trimmed_follow_new_line: flag }, out, false);
            }
            let reasoning = String::from_str(t);
            let emitted = chunk_with_delta(
                &chunk,
                Delta { reasoning_content: Option::Some(reasoning), content: Option::None },
            );
            let mut out: Vec<Result<Chunk, ExtractError>> = Vec::new();
            out.push(Result::Ok(emitted));
            proof {
                assert(out_items_view(out@) =~= spec_step_init(cv).outputs);
            }
            (ThinkTagState::Begin { trimmed_follow_new_line: flag }, out, false)
        },
        Option::Some(i) => {
            let ghost tv = t@;
            proof {
                crate::text::lemma_spec_find(tv, think_end_tag(), 0);
            }
            let before = String::from_str(t.substring_char(0, i));
            proof {
                assert(before@ =~= tv.take(i as int));
            }
            let first = chunk_with_delta(
                &chunk,
                Delta { reasoning_content: Option::Some(before), content: Option::None },
            );
            let mut out: Vec<Result<Chunk, ExtractError>> = Vec::new();
            out.push(Result::Ok(first));
            if i + 8 < tlen {
                let after = str_trim_start(t.substring_char(i + 8, tlen));
                proof {
                    assert(t@.subrange(i + 8, tlen as int) =~= tv.skip(
                        i + think_end_tag().len(),
                    ));
                }
                let second = chunk_with_delta(
                    &chunk,
                    Delta {
                        reasoning_content: Option::None,
                        content: Option::Some(String::from_str(after)),
                    },
                );
                out.push(Result::Ok(second));
            }
            proof {
                assert(out_items_view(out@) =~= spec_step_init(cv).outputs);
            }
            (ThinkTagState::End, out, false)
        },
    }
}

/// One step from `Begin` on a non-heartbeat chunk with at least one choice.
fn step_begin(chunk: Chunk, trimmed: bool) -> (r: (
    ThinkTagState,
    Vec<Result<Chunk, ExtractError>>,
    bool,
))
    requires
        chunk.choices.len() >= 1,
        !is_heartbeat(chunk@.choices[0].delta),
    ensures
        r.0 == spec_step_begin(chunk@, trimmed).state,
        out_items_view(r.1@) == spec_step_begin(chunk@, trimmed).outputs,
        r.2 == spec_step_begin(chunk@, trimmed).halt,
{
    let ghost cv = chunk@;
    if chunk.choices[0].delta.content.is_none() {
        // a think block is open but this delta carries no content: pass it
        // through and let the client interpret it
        let mut out: Vec<Result<Chunk, ExtractError>> = Vec::new();
        out.push(Result::Ok(chunk));
        proof {
            assert(out_items_view(out@) =~= spec_step_begin(cv, trimmed).outputs);
        }
        return (ThinkTagState::Begin { trimmed_follow_new_line: trimmed }, out, false);
    }
    let s = opt_as_str(&chunk.choices[0].delta.content);
    let ghost sv = s@;
    proof {
        reveal_strlit("</think>");
        assert(think_end_tag().len() == 8);
    }
    let slen = s.unicode_len();
    match str_find(s, "</think>") {
        Option::None => {
            let moved = if trimmed {
                String::from_str(s)
            } else {
                String::from_str(str_trim_start(s))
            };
            let emitted = chunk_with_delta(
                &chunk,
                Delta { reasoning_content: Option::Some(moved), content: Option::None },
            );
            let mut out: Vec<Result<Chunk, ExtractError>> = Vec::new();
            out.push(Result::Ok(emitted));
            proof {
                assert(out_items_view(out@) =~= spec_step_begin(cv, trimmed).outputs);
            }
            (ThinkTagState::Begin { trimmed_follow_new_line: true }, out, false)
        },
        Option::Some(i) => {
            proof {
                crate::text::lemma_spec_find(sv, think_end_tag(), 0);
            }
            let before = String::from_str(s.substring_char(0, i));
            proof {
                assert(before@ =~= sv.take(i as int));
            }
            let first = chunk_with_delta(
                &chunk,
                Delta { reasoning_content: Option::Some(before), content: Option::None },
            );
            let mut out: Vec<Result<Chunk, ExtractError>> = Vec::new();
            out.push(Result::Ok(first));
            if i + 8 < slen {
                let after = String::from_str(s.substring_char(i + 8, slen));
                proof {
                    assert(after@ =~= sv.skip(i + think_end_tag().len()));
                }
                let second = chunk_with_delta(
                    &chunk,
                    Delta { reasoning_content: Option::None, content: Option::Some(after) },
                );
                out.push(Result::Ok(second));
            }
            proof {
                assert(out_items_view(out@) =~= spec_step_begin(cv, trimmed).outputs);
            }
            (ThinkTagState::End, out, false)
        },
    }
}

/// One step of the extractor: from the current state and one input item,
/// the successor state, the emitted output items (zero, one or two) and
/// whether the output stream terminates here.
pub fn extract_step(state: ThinkTagState, item: Result<Chunk, String>) -> (r: (
    ThinkTagState,
    Vec<Result<Chunk, ExtractError>>,
    bool,
))
    ensures
        r.0 == spec_step(state, in_item_view(item)).state,
        out_items_view(r.1@) == spec_step(state, in_item_view(item)).outputs,
        r.2 == spec_step(state, in_item_view(item)).halt,
{
    let ghost iv = in_item_view(item);
    match item {
        Result::Err(msg) => {
            let mut out: Vec<Result<Chunk, ExtractError>> = Vec::new();
            out.push(Result::Err(ExtractError::Upstream(msg)));
            proof {
                assert(out_items_view(out@) =~= spec_step(state, iv).outputs);
            }
            (state, out, true)
        },
        Result::Ok(chunk) => {
            if chunk.choices.len() == 0 {
                let mut out: Vec<Result<Chunk, ExtractError>> = Vec::new();
                out.push(Result::Err(ExtractError::EmptyChoice));
                proof {
                    assert(out_items_view(out@) =~= spec_step(state, iv).outputs);
                }
                return (state, out, true);
            }
            let hb = opt_is_empty_text(&chunk.choices[0].delta.reasoning_content)
                && opt_is_empty_text(&chunk.choices[0].delta.content);
            if hb {
                let out: Vec<Result<Chunk, ExtractError>> = Vec::new();
                proof {
                    assert(out_items_view(out@) =~= spec_step(state, iv).outputs);
                }
                return (state, out, false);
            }
            match state {
                ThinkTagState::Init => step_init(chunk),
                ThinkTagState::Begin { trimmed_follow_new_line } => step_begin(
                    chunk,
                    trimmed_follow_new_line,
                ),
                ThinkTagState::End => {
                    let mut out: Vec<Result<Chunk, ExtractError>> = Vec::new();
                    out.push(Result::Ok(chunk));
                    proof {
                        assert(out_items_view(out@) =~= spec_step(state, iv).outputs);
                    }
                    (state, out, false)
                },
                ThinkTagState::NoTag => {
                    let mut out: Vec<Result<Chunk, ExtractError>> = Vec::new();
                    out.push(Result::Ok(chunk));
                    proof {
                        assert(out_items_view(out@) =~= spec_step(state, iv).outputs);
                    }
                    (state, out, false)
                },
            }
        },
    }
}

/// A pushable extractor for one streaming response: feed it each arriving
/// item and forward what it returns. Once halted it returns nothing more.
pub struct CotExtractor {
    pub state: ThinkTagState,
    pub halted: bool,
}

impl CotExtractor {
    /// A fresh extractor for a new response.
    pub fn new() -> (r: CotExtractor)
        ensures
            r.state == ThinkTagState::Init,
            !r.halted,
    {
        CotExtractor { state: ThinkTagState::Init, halted: false }
    }

    /// Consume one input item and return the output items to forward.
    pub fn push(&mut self, item: Result<Chunk, String>) -> (out: Vec<Result<Chunk, ExtractError>>)
        ensures
            old(self).halted ==> out@.len() == 0 && *final(self) == *old(self),
            !old(self).halted ==> {
                let st = spec_step(old(self).state, in_item_view(item));
                &&& final(self).state == st.state
                &&& final(self).halted == st.halt
                &&& out_items_view(out@) == st.outputs
            },
    {
        if self.halted {
            return Vec::new();
        }
        let (next, out, halt) = extract_step(self.state, item);
        self.state = next;
        self.halted = halt;
        out
    }
}

/// Duplicate one input item, preserving its model.
fn clone_item(x: &Result<Chunk, String>) -> (r: Result<Chunk, String>)
    ensures
        in_item_view(r) == in_item_view(*x),
{
    match x {
        Result::Ok(c) => Result::Ok(c.clone()),
        Result::Err(e) => Result::Err(e.clone()),
    }
}

/// Extract think-tag reasoning from a whole item sequence at once: exactly
/// the outputs that pushing every item in order would forward.
pub fn extract_cot(items: Vec<Result<Chunk, String>>) -> (out: Vec<Result<Chunk, ExtractError>>)
    ensures
        out_items_view(out@) == spec_extract(in_items_view(items@)),
{
    let ghost all = in_items_view(items@);
    let mut out: Vec<Result<Chunk, ExtractError>> = Vec::new();
    let mut state = ThinkTagState::Init;
    let mut k: usize = 0;
    let n = items.len();
    proof {
        assert(all.skip(0) =~= all);
        assert(out_items_view(out@) =~= Seq::<Result<ChunkView, ExtractErrorView>>::empty());
        assert(out_items_view(out@) + spec_extract_from(state, all.skip(0)) =~= spec_extract(all));
    }
    while k < n
        invariant
            k <= n,
            n == items@.len(),
            all == in_items_view(items@),
            spec_extract(all) == out_items_view(out@) + spec_extract_from(
                state,
                all.skip(k as int),
            ),
        decreases n - k,
    {
        let item = clone_item(&items[k]);
        let ghost pre_out = out@;
        let (next, mut emitted, halt) = extract_step(state, item);
        let ghost st = spec_step(state, all.skip(k as int)[0]);
        out.append(&mut emitted);
        proof {
            assert(all.skip(k as int)[0] == in_item_view(items@[k as int]));
            assert(in_item_view(item) == all.skip(k as int)[0]);
            assert(out_items_view(out@) =~= out_items_view(pre_out) + st.outputs);
            assert(all.skip(k as int).drop_first() =~= all.skip(k + 1));
        }
        if halt {
            proof {
                assert(spec_extract_from(state, all.skip(k as int)) =~= st.outputs);
                assert(spec_extract(all) =~= out_items_view(out@));
            }
            return out;
        }
        state = next;
        k = k + 1;
    }
    proof {
        assert(all.skip(n as int) =~= Seq::empty());
        assert(spec_extract(all) =~= out_items_view(out@));
    }
    out
}

/// A parsed chunk with at least one choice that is not a heartbeat.
pub open spec fn valid_plain_chunk(item: Result<ChunkView, Seq<char>>) -> bool {
    match item {
        Result::Ok(c) => c.choices.len() > 0 && !is_heartbeat(c.choices[0].delta),
        Result::Err(_) => false,
    }
}

/// The chunk inside an input item known to carry one.
pub open spec fn ok_payload(x: Result<ChunkView, Seq<char>>) -> ChunkView {
    match x {
        Result::Ok(c) => c,
        Result::Err(_) => vstd::pervasive::arbitrary(),
    }
}

/// The chunk inside an output item known to carry one.
pub open spec fn out_payload(x: Result<ChunkView, ExtractErrorView>) -> ChunkView {
    match x {
        Result::Ok(c) => c,
        Result::Err(_) => vstd::pervasive::arbitrary(),
    }
}

/// The content text of a chunk's first choice, when present.
pub open spec fn content_text(c: ChunkView) -> Seq<char> {
    match c.choices[0].delta.content {
        Option::Some(s) => s,
        Option::None => vstd::pervasive::arbitrary(),
    }
}

/// Whether a chunk's first choice carries content.
pub open spec fn has_content(c: ChunkView) -> bool {
    c.choices[0].delta.content is Some
}

/// Law: from a terminal pass-through state, on chunks that all have a
/// choice and none of which is a heartbeat, the output is item-for-item
/// identical to the input.
pub proof fn lemma_passthrough_identity(
    state: ThinkTagState,
    items: Seq<Result<ChunkView, Seq<char>>>,
)
    requires
        state == ThinkTagState::End || state == ThinkTagState::NoTag,
        forall|i: int| 0 <= i < items.len() ==> #[trigger] valid_plain_chunk(items[i]),
    ensures
        spec_extract_from(state, items) == items.map_values(
            |x: Result<ChunkView, Seq<char>>|
                Result::<ChunkView, ExtractErrorView>::Ok(ok_payload(x)),
        ),
    decreases items.len(),
{
    let f = |x: Result<ChunkView, Seq<char>>|
        Result::<ChunkView, ExtractErrorView>::Ok(ok_payload(x));
    if items.len() == 0 {
        assert(spec_extract_from(state, items) =~= items.map_values(f));
    } else {
        assert(valid_plain_chunk(items[0]));
        let st = spec_step(state, items[0]);
        assert(st.outputs =~= seq![Result::<ChunkView, ExtractErrorView>::Ok(
            ok_payload(items[0]),
        )]);
        assert(forall|i: int|
            0 <= i < items.drop_first().len() ==> #[trigger] valid_plain_chunk(
                items.drop_first()[i],
            ));
        lemma_passthrough_identity(state, items.drop_first());
        assert(spec_extract_from(state, items) =~= items.map_values(f));
    }
}

/// Law: when a think block is open and the closing tag arrives within one
/// chunk, the step emits exactly two chunks, the first carrying only the
/// reasoning before the tag and the second only the content after it,
/// unless the tag sits at the very end of the chunk, in which case only the
/// first is emitted. Either way the block is closed.
pub proof fn lemma_in_think_close(c: ChunkView, trimmed: bool)
    requires
        c.choices.len() > 0,
        !is_heartbeat(c.choices[0].delta),
        has_content(c),
        spec_find(content_text(c), think_end_tag(), 0) != -1,
    ensures
        ({
            let st = spec_step(
                ThinkTagState::Begin { trimmed_follow_new_line: trimmed },
                Result::Ok(c),
            );
            let s = content_text(c);
            let i = spec_find(s, think_end_tag(), 0);
            &&& st.state == ThinkTagState::End
            &&& !st.halt
            &&& (i + think_end_tag().len() == s.len() ==> st.outputs == seq![
                Result::<ChunkView, ExtractErrorView>::Ok(
                    spec_with_delta(c, reasoning_delta(s.take(i))),
                ),
            ])
            &&& (i + think_end_tag().len() != s.len() ==> st.outputs == seq![
                Result::<ChunkView, ExtractErrorView>::Ok(
                    spec_with_delta(c, reasoning_delta(s.take(i))),
                ),
                Result::<ChunkView, ExtractErrorView>::Ok(
                    spec_with_delta(c, content_delta(s.skip(i + think_end_tag().len()))),
                ),
            ])
        }),
{
}

/// Law: while a think block is open and no closing tag arrives, every
/// emitted chunk has its content channel absent, and the block stays open
/// throughout the span.
pub proof fn lemma_open_block_span(trimmed: bool, items: Seq<Result<ChunkView, Seq<char>>>)
    requires
        forall|i: int| 0 <= i < items.len() ==> #[trigger] valid_plain_chunk(items[i]),
        forall|i: int|
            0 <= i < items.len() && has_content(#[trigger] ok_payload(items[i])) ==> spec_find(
                content_text(ok_payload(items[i])),
                think_end_tag(),
                0,
            ) == -1,
    ensures
        ({
            let out = spec_extract_from(
                ThinkTagState::Begin { trimmed_follow_new_line: trimmed },
                items,
            );
            &&& out.len() == items.len()
            &&& forall|q: int|
                0 <= q < out.len() ==> (#[trigger] out[q]) is Ok && out_payload(
                    out[q],
                ).choices[0].delta.content is None
        }),
    decreases items.len(),
{
    if items.len() > 0 {
        let st = spec_step(ThinkTagState::Begin { trimmed_follow_new_line: trimmed }, items[0]);
        let c = ok_payload(items[0]);
        assert(valid_plain_chunk(items[0]));
        let rest = items.drop_first();
        assert(forall|i: int|
            0 <= i < rest.len() ==> #[trigger] valid_plain_chunk(rest[i]) && rest[i] == items[i
                + 1]);
        assert(forall|i: int|
            0 <= i < rest.len() && has_content(#[trigger] ok_payload(rest[i])) ==> spec_find(
                content_text(ok_payload(rest[i])),
                think_end_tag(),
                0,
            ) == -1);
        if has_content(c) {
            lemma_open_block_span(true, rest);
            assert(st.outputs.len() == 1);
        } else {
            lemma_open_block_span(trimmed, rest);
            assert(st.outputs.len() == 1);
            assert(out_payload(st.outputs[0]).choices[0].delta.content is None);
        }
        let out = spec_extract_from(ThinkTagState::Begin { trimmed_follow_new_line: trimmed }, items);
        assert(out == st.outputs + spec_extract_from(st.state, rest));
        assert(forall|q: int|
            1 <= q < out.len() ==> out[q] == spec_extract_from(st.state, rest)[q - 1]);
    }
}

/// Whether the extractor, started in `state`, consumes the first `b` items
/// without terminating its output.
pub open spec fn no_halt_before(
    state: ThinkTagState,
    items: Seq<Result<ChunkView, Seq<char>>>,
    b: int,
) -> bool
    decreases b,
{
    if b <= 0 {
        true
    } else {
        !spec_step(state, items[0]).halt && no_halt_before(
            spec_step(state, items[0]).state,
            items.drop_first(),
            b - 1,
        )
    }
}

/// Law: a chunk with an empty choices sequence anywhere in the stream makes
/// the whole output the outputs of the items before it followed by exactly
/// one empty-choice error, with nothing emitted afterwards, whatever else
/// follows upstream.
pub proof fn lemma_empty_choice_terminal(
    state: ThinkTagState,
    items: Seq<Result<ChunkView, Seq<char>>>,
    b: int,
)
    requires
        0 <= b < items.len(),
        items[b] is Ok,
        ok_payload(items[b]).choices.len() == 0,
        no_halt_before(state, items, b),
    ensures
        spec_extract_from(state, items) == spec_extract_from(state, items.take(b)) + seq![
            Result::<ChunkView, ExtractErrorView>::Err(ExtractErrorView::EmptyChoice),
        ],
    decreases b,
{
    let err = seq![Result::<ChunkView, ExtractErrorView>::Err(ExtractErrorView::EmptyChoice)];
    if b == 0 {
        let st = spec_step(state, items[0]);
        assert(st.halt);
        assert(st.outputs =~= err);
        assert(items.take(0) =~= Seq::<Result<ChunkView, Seq<char>>>::empty());
        assert(spec_extract_from(state, items.take(0)) + err =~= err);
    } else {
        let st = spec_step(state, items[0]);
        let rest = items.drop_first();
        assert(!st.halt);
        assert(rest[b - 1] == items[b]);
        lemma_empty_choice_terminal(st.state, rest, b - 1);
        assert(items.take(b)[0] == items[0]);
        assert(items.take(b).drop_first() =~= rest.take(b - 1));
        assert(spec_extract_from(state, items.take(b)) == st.outputs + spec_extract_from(
            st.state,
            rest.take(b - 1),
        ));
        assert(spec_extract_from(state, items) == st.outputs + (spec_extract_from(
            st.state,
            rest.take(b - 1),
        ) + err));
        assert(st.outputs + (spec_extract_from(st.state, rest.take(b - 1)) + err) =~= (st.outputs
            + spec_extract_from(st.state, rest.take(b - 1))) + err);
    }
}

} // verus!
