//! The wire model of one increment of a streaming completion response.

use vstd::prelude::*;

verus! {

/// The incremental text payload of a chunk, split into a `reasoning_content`
/// channel and an ordinary `content` channel.
#[derive(Debug)]
pub struct Delta {
    pub reasoning_content: Option<String>,
    pub content: Option<String>,
}

/// Why the backend finished a choice.
#[derive(Clone, Copy, PartialEq, Eq, Structural, Debug)]
pub enum FinishReason {
    Stop,
    Length,
    ToolCalls,
    ContentFilter,
    FunctionCall,
}

/// One choice of a chunk. `logprobs` carries the backend's raw JSON text,
/// opaque to this crate and passed through unexamined.
#[derive(Debug)]
pub struct Choice {
    pub index: i64,
    pub delta: Delta,
    pub logprobs: Option<String>,
    pub finish_reason: Option<FinishReason>,
    pub stop_reason: Option<String>,
}

/// One streaming increment: metadata plus an ordered sequence of choices.
/// A chunk with an empty `choices` sequence is a protocol error, not a
/// valid empty state.
#[derive(Debug)]
pub struct Chunk {
    pub id: String,
    pub object: String,
    pub created: u32,
    pub model: String,
    pub choices: Vec<Choice>,
}

/// Mathematical model of a `Delta`.
#[verifier::ext_equal]
pub struct DeltaView {
    pub reasoning_content: Option<Seq<char>>,
    pub content: Option<Seq<char>>,
}

/// Mathematical model of a `Choice`.
#[verifier::ext_equal]
pub struct ChoiceView {
    pub index: i64,
    pub delta: DeltaView,
    pub logprobs: Option<Seq<char>>,
    pub finish_reason: Option<FinishReason>,
    pub stop_reason: Option<Seq<char>>,
}

/// Mathematical model of a `Chunk`.
#[verifier::ext_equal]
pub struct ChunkView {
    pub id: Seq<char>,
    pub object: Seq<char>,
    pub created: u32,
    pub model: Seq<char>,
    pub choices: Seq<ChoiceView>,
}

pub open spec fn opt_text_view(o: Option<String>) -> Option<Seq<char>> {
    match o {
        Option::Some(s) => Option::Some(s@),
        Option::None => Option::None,
    }
}

impl View for Delta {
    type V = DeltaView;

    open spec fn view(&self) -> DeltaView {
        DeltaView {
            reasoning_content: opt_text_view(self.reasoning_content),
            content: opt_text_view(self.content),
        }
    }
}

impl View for Choice {
    type V = ChoiceView;

    open spec fn view(&self) -> ChoiceView {
        ChoiceView {
            index: self.index,
            delta: self.delta@,
            logprobs: opt_text_view(self.logprobs),
            finish_reason: self.finish_reason,
            stop_reason: opt_text_view(self.stop_reason),
        }
    }
}

impl View for Chunk {
    type V = ChunkView;

    open spec fn view(&self) -> ChunkView {
        ChunkView {
            id: self.id@,
            object: self.object@,
            created: self.created,
            model: self.model@,
            choices: self.choices@.map_values(|c: Choice| c@),
        }
    }
}

fn clone_opt_string(o: &Option<String>) -> (r: Option<String>)
    ensures
        r == *o,
{
    match o {
        Option::Some(s) => Option::Some(s.clone()),
        Option::None => Option::None,
    }
}

impl Clone for Delta {
    fn clone(&self) -> (r: Self)
        ensures
            r == *self,
    {
        Delta {
            reasoning_content: clone_opt_string(&self.reasoning_content),
            content: clone_opt_string(&self.content),
        }
    }
}

impl Clone for Choice {
    fn clone(&self) -> (r: Self)
        ensures
            r == *self,
    {
        Choice {
            index: self.index,
            delta: self.delta.clone(),
            logprobs: clone_opt_string(&self.logprobs),
            finish_reason: self.finish_reason,
            stop_reason: clone_opt_string(&self.stop_reason),
        }
    }
}

impl Clone for Chunk {
    fn clone(&self) -> (r: Self)
        ensures
            r@ == self@,
    {
        let mut choices: Vec<Choice> = Vec::new();
        let mut i: usize = 0;
        while i < self.choices.len()
            invariant
                i <= self.choices.len(),
                choices@ =~= self.choices@.take(i as int),
            decreases self.choices.len() - i,
        {
            choices.push(self.choices[i].clone());
            i = i + 1;
        }
        proof {
            assert(choices@ =~= self.choices@);
        }
        let r = Chunk {
            id: self.id.clone(),
            object: self.object.clone(),
            created: self.created,
            model: self.model.clone(),
            choices,
        };
        proof {
            assert(r@ =~= self@);
        }
        r
    }
}

/// The view of `c` with the delta of its first choice replaced by `d`:
/// everything else, the metadata, the other fields of the first choice and
/// all later choices, is unchanged.
pub open spec fn spec_with_delta(c: ChunkView, d: DeltaView) -> ChunkView {
    ChunkView {
        id: c.id,
        object: c.object,
        created: c.created,
        model: c.model,
        choices: c.choices.update(
            0,
            ChoiceView {
                index: c.choices[0].index,
                delta: d,
                logprobs: c.choices[0].logprobs,
                finish_reason: c.choices[0].finish_reason,
                stop_reason: c.choices[0].stop_reason,
            },
        ),
    }
}

/// Build a copy of `c` whose first choice carries the delta `d`.
pub fn chunk_with_delta(c: &Chunk, d: Delta) -> (r: Chunk)
    requires
        c.choices.len() >= 1,
    ensures
        r@ == spec_with_delta(c@, d@),
{
    let ghost dv = d@;
    let first = Choice {
        index: c.choices[0].index,
        delta: d,
        logprobs: clone_opt_string(&c.choices[0].logprobs),
        finish_reason: c.choices[0].finish_reason,
        stop_reason: clone_opt_string(&c.choices[0].stop_reason),
    };
    let mut choices: Vec<Choice> = Vec::new();
    choices.push(first);
    let mut i: usize = 1;
    while i < c.choices.len()
        invariant
            1 <= i <= c.choices.len(),
            c.choices.len() >= 1,
            choices@.len() == i,
            choices@[0]@ == (ChoiceView {
                index: c.choices@[0]@.index,
                delta: dv,
                logprobs: c.choices@[0]@.logprobs,
                finish_reason: c.choices@[0]@.finish_reason,
                stop_reason: c.choices@[0]@.stop_reason,
            }),
            forall|j: int| 1 <= j < i ==> choices@[j] == c.choices@[j],
        decreases c.choices.len() - i,
    {
        choices.push(c.choices[i].clone());
        i = i + 1;
    }
    let r = Chunk {
        id: c.id.clone(),
        object: c.object.clone(),
        created: c.created,
        model: c.model.clone(),
        choices,
    };
    proof {
        assert(r@.choices =~= spec_with_delta(c@, dv).choices);
        assert(r@ =~= spec_with_delta(c@, dv));
    }
    r
}

} // verus!
