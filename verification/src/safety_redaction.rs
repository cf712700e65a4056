//! Removal of known secret values (taken from the environment by the caller)
//! from text that leaves the bot.
use vstd::prelude::*;
use crate::text::{chars_of, replace_all_seq, replace_all_vec, string_of};

verus! {

/// What a secret is replaced with.
pub open spec fn redaction_mark() -> Seq<char> {
    "[REDACTED]"@
}

/// Replaces each listed secret value with `[REDACTED]`.
pub struct EnvSecretRedactor {
    pub needles: Vec<String>,
}

/// `text` with every non-empty needle, in order, replaced by the mark.
pub open spec fn redact_seq(text: Seq<char>, needles: Seq<Seq<char>>) -> Seq<char>
    decreases needles.len(),
{
    if needles.len() == 0 {
        text
    } else {
        let before = redact_seq(text, needles.drop_last());
        let n = needles.last();
        if n.len() == 0 {
            before
        } else {
            replace_all_seq(before, n, redaction_mark())
        }
    }
}

impl EnvSecretRedactor {
    /// The needles as texts.
    pub open spec fn needle_seqs(&self) -> Seq<Seq<char>> {
        self.needles@.map_values(|s: String| s@)
    }

    /// A redactor that removes nothing.
    pub fn empty() -> (r: Self)
        ensures
            r.needle_seqs().len() == 0,
    {
        EnvSecretRedactor { needles: Vec::new() }
    }

    /// A redactor for the given secret values.
    pub fn from_needles(needles: Vec<String>) -> (r: Self)
        ensures
            r.needles@ == needles@,
    {
        EnvSecretRedactor { needles }
    }

    /// `text` with every secret value replaced by `[REDACTED]`.
    pub fn redact(&self, text: &str) -> (r: String)
        ensures
            r@ == redact_seq(text@, self.needle_seqs()),
    {
        let mark = chars_of("[REDACTED]");
        let mut out = chars_of(text);
        let mut i: usize = 0;
        while i < self.needles.len()
            invariant
                i <= self.needles@.len(),
                mark@ == redaction_mark(),
                out@ == redact_seq(text@, self.needle_seqs().subrange(0, i as int)),
            decreases self.needles@.len() - i,
        {
            let n = chars_of(self.needles[i].as_str());
            let ghost sub = self.needle_seqs().subrange(0, i + 1);
            assert(sub.drop_last() =~= self.needle_seqs().subrange(0, i as int));
            assert(sub.last() == n@);
            if n.len() > 0 {
                out = replace_all_vec(&out, &n, &mark);
            }
            i += 1;
        }
        assert(self.needle_seqs().subrange(0, self.needles@.len() as int) =~= self.needle_seqs());
        string_of(&out)
    }
}

} // verus!
