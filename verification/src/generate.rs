//! Bookkeeping of greedy generation.
//!
//! Generation alternates a forward pass of the model, which picks the next
//! token from the context, with a decision step kept here: the chosen token
//! joins the context, and after `max_new_tokens` steps the tokens that
//! follow the prompt are the result.

use vstd::prelude::*;

verus! {

/// State of a generation run: the context (prompt, then the tokens
/// generated so far) and the number of steps still to take.
pub struct Generation {
    tokens: Vec<usize>,
    prompt_len: usize,
    max_new_tokens: usize,
    remaining: usize,
}

impl Generation {
    /// The run's internal bookkeeping is consistent; every run built by
    /// `new` and advanced by `advance` is.
    pub closed spec fn wf(&self) -> bool {
        &&& self.prompt_len <= self.tokens@.len()
        &&& self.tokens@.len() - self.prompt_len + self.remaining == self.max_new_tokens
    }

    /// The prompt the run started from.
    pub closed spec fn prompt(&self) -> Seq<usize> {
        self.tokens@.subrange(0, self.prompt_len as int)
    }

    /// The tokens generated so far, oldest first.
    pub closed spec fn generated(&self) -> Seq<usize> {
        self.tokens@.subrange(self.prompt_len as int, self.tokens@.len() as int)
    }

    /// Number of tokens the run was asked for.
    pub closed spec fn max_new_tokens(&self) -> nat {
        self.max_new_tokens as nat
    }

    /// Number of steps still to take.
    pub closed spec fn remaining(&self) -> nat {
        self.remaining as nat
    }

    /// A run that will generate `max_new_tokens` tokens after `prompt`.
    pub fn new(prompt: &[usize], max_new_tokens: usize) -> (g: Self)
        ensures
            g.wf(),
            g.prompt() == prompt@,
            g.generated() == Seq::<usize>::empty(),
            g.max_new_tokens() == max_new_tokens,
            g.remaining() == max_new_tokens,
    {
        let mut tokens: Vec<usize> = Vec::with_capacity(prompt.len());
        let mut k: usize = 0;
        while k < prompt.len()
            invariant
                k <= prompt@.len(),
                tokens@ == prompt@.subrange(0, k as int),
            decreases prompt@.len() - k,
        {
            tokens.push(prompt[k]);
            assert(tokens@ =~= prompt@.subrange(0, k + 1));
            k = k + 1;
        }
        assert(tokens@ =~= prompt@);
        let g = Generation {
            tokens,
            prompt_len: prompt.len(),
            max_new_tokens,
            remaining: max_new_tokens,
        };
        assert(g.prompt() =~= prompt@);
        assert(g.generated() =~= Seq::<usize>::empty());
        g
    }

    /// The context the next forward pass reads: the prompt followed by the
    /// tokens generated so far.
    pub fn context(&self) -> (c: &[usize])
        requires
            self.wf(),
        ensures
            c@ == self.prompt() + self.generated(),
    {
        proof {
            assert(self.tokens@ =~= self.prompt() + self.generated());
        }
        self.tokens.as_slice()
    }

    /// Whether every requested token has been generated.
    pub fn is_done(&self) -> (done: bool)
        requires
            self.wf(),
        ensures
            done <==> self.remaining() == 0,
            done ==> self.generated().len() == self.max_new_tokens(),
            self.generated().len() + self.remaining() == self.max_new_tokens(),
    {
        self.remaining == 0
    }

    /// Appends the token the model chose and counts the step.
    pub fn advance(&mut self, next: usize)
        requires
            old(self).wf(),
            old(self).remaining() > 0,
        ensures
            final(self).wf(),
            final(self).prompt() == old(self).prompt(),
            final(self).generated() == old(self).generated().push(next),
            final(self).max_new_tokens() == old(self).max_new_tokens(),
            final(self).remaining() == old(self).remaining() - 1,
    {
        let ghost old_tokens = self.tokens@;
        self.tokens.push(next);
        self.remaining = self.remaining - 1;
        proof {
            assert(self.tokens@.subrange(0, self.prompt_len as int) =~= old_tokens.subrange(
                0,
                self.prompt_len as int,
            ));
            assert(self.tokens@.subrange(self.prompt_len as int, self.tokens@.len() as int)
                =~= old_tokens.subrange(self.prompt_len as int, old_tokens.len() as int).push(
                next,
            ));
        }
    }

    /// The tokens generated after the prompt; a finished run holds exactly
    /// `max_new_tokens` of them.
    pub fn finish(self) -> (out: Vec<usize>)
        requires
            self.wf(),
        ensures
            out@ == self.generated(),
            self.remaining() == 0 ==> out@.len() == self.max_new_tokens(),
    {
        let mut tokens = self.tokens;
        let out = tokens.split_off(self.prompt_len);
        out
    }
}

} // verus!
