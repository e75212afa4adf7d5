//! Separator-aware splitter: a left-to-right character scan that splits a
//! string while treating one level of parenthesised text as atomic.
//!
//! The scan is a finite-state machine over the states "normal" and
//! "inside parentheses"; the comma/space variant additionally suppresses a
//! space that immediately follows a comma, and tags each emitted token with
//! the separator that terminated it.

use vstd::prelude::*;

use crate::ast::{asv_view, lemma_asv_view_push, lemma_strs_view_push, strs_view, ArgSepModel,
    ArgSeparated};
use crate::classify::AsmRegex;
use crate::text::{
    chars_of, lemma_trim_len, split_char, split_char_x, string_of, trim_seq, trim_vec, vcs_view,
};

verus! {

/// Scan state of the operand splitter: emitted tokens, token in progress,
/// and whether the scan is inside parentheses.
pub open spec fn soa_state(s: Seq<char>) -> (Seq<Seq<char>>, Seq<char>, bool)
    decreases s.len(),
{
    if s.len() == 0 {
        (Seq::empty(), Seq::empty(), false)
    } else {
        let (args, cur, inp) = soa_state(s.drop_last());
        let c = s.last();
        if c == '(' {
            (args, cur.push(c), true)
        } else if c == ')' {
            (args, cur.push(c), false)
        } else if c == ',' && !inp {
            (args.push(trim_seq(cur)), Seq::empty(), inp)
        } else {
            (args, cur.push(c), inp)
        }
    }
}

/// Splits on commas outside parentheses; every token is trimmed, and the
/// token in progress at the end of the string is always emitted.
pub open spec fn split_operand_args_model(s: Seq<char>) -> Seq<Seq<char>> {
    let (args, cur, inp) = soa_state(s);
    args.push(trim_seq(cur))
}

/// Every token the operand splitter emits is at most as long as its input.
pub proof fn lemma_soa_state_bound(s: Seq<char>)
    ensures
        ({
            let (args, cur, inp) = soa_state(s);
            &&& forall|k: int| 0 <= k < args.len() ==> #[trigger] args[k].len() <= s.len()
            &&& cur.len() <= s.len()
        }),
    decreases s.len(),
{
    if s.len() > 0 {
        lemma_soa_state_bound(s.drop_last());
        let (args0, cur0, inp0) = soa_state(s.drop_last());
        lemma_trim_len(cur0);
    }
}

pub proof fn lemma_split_operand_args_bound(s: Seq<char>)
    ensures
        forall|k: int|
            0 <= k < split_operand_args_model(s).len() ==> #[trigger] split_operand_args_model(
                s,
            )[k].len() <= s.len(),
{
    lemma_soa_state_bound(s);
    let (args, cur, inp) = soa_state(s);
    lemma_trim_len(cur);
}

/// Scan state of the comma/space splitter: emitted tagged tokens, token in
/// progress, parenthesis flag, previous character, and last separator seen.
pub open spec fn ssa_state(s: Seq<char>) -> (Seq<ArgSepModel>, Seq<char>, bool, char, char)
    decreases s.len(),
{
    if s.len() == 0 {
        (Seq::empty(), Seq::empty(), false, ' ', ' ')
    } else {
        let (args, cur, inp, lc, ls) = ssa_state(s.drop_last());
        let c = s.last();
        if c == '(' {
            (args, cur.push(c), true, c, ls)
        } else if c == ')' {
            (args, cur.push(c), false, c, ls)
        } else if c == ',' {
            if inp {
                (args, cur.push(c), inp, c, ls)
            } else {
                (args.push(ArgSepModel::Comma(trim_seq(cur))), Seq::empty(), inp, c, c)
            }
        } else if c == ' ' {
            if lc == ',' {
                // a space right after a comma is suppressed and does not
                // become the previous character
                (args, cur, inp, lc, ls)
            } else if inp {
                (args, cur.push(c), inp, c, ls)
            } else if cur.len() == 0 {
                (args, cur, inp, lc, ls)
            } else {
                (args.push(ArgSepModel::Space(trim_seq(cur))), Seq::empty(), inp, c, c)
            }
        } else {
            (args, cur.push(c), inp, c, ls)
        }
    }
}

/// Splits on commas and spaces outside parentheses, tagging each token with
/// the separator that terminated it; the final token, if any text remains,
/// is tagged with the last separator seen (a space when none was seen).
pub open spec fn split_separated_args_model(s: Seq<char>) -> Seq<ArgSepModel> {
    let (args, cur, inp, lc, ls) = ssa_state(s);
    if trim_seq(cur).len() == 0 {
        args
    } else if ls == ',' {
        args.push(ArgSepModel::Comma(trim_seq(cur)))
    } else {
        args.push(ArgSepModel::Space(trim_seq(cur)))
    }
}

impl AsmRegex {
    /// Splits an operand list on commas, treating parenthesised text as
    /// atomic; each token is trimmed.
    #[verifier::loop_isolation(false)]
    pub fn split_into_operand_args(&self, line: &str) -> (r: Vec<String>)
        ensures
            strs_view(r@) == split_operand_args_model(line@),
    {
        let v = chars_of(line);
        let mut args: Vec<String> = Vec::new();
        let mut cur: Vec<char> = Vec::new();
        let mut inp: bool = false;
        let mut i: usize = 0;
        while i < v.len()
            invariant
                i <= v@.len(),
                (strs_view(args@), cur@, inp) == soa_state(v@.take(i as int)),
            decreases v@.len() - i,
        {
            let c = v[i];
            if c == '(' {
                inp = true;
                cur.push(c);
            } else if c == ')' {
                inp = false;
                cur.push(c);
            } else if c == ',' && !inp {
                let t = trim_vec(&cur);
                let ts = string_of(&t);
                proof {
                    lemma_strs_view_push(args@, ts);
                }
                args.push(ts);
                cur = Vec::new();
            } else {
                cur.push(c);
            }
            i = i + 1;
            proof {
                assert(v@.take(i as int).drop_last() =~= v@.take(i as int - 1));
                assert(v@.take(i as int).last() == v@[i as int - 1]);
            }
        }
        proof {
            assert(v@.take(v@.len() as int) =~= v@);
        }
        let t = trim_vec(&cur);
        let ts = string_of(&t);
        proof {
            lemma_strs_view_push(args@, ts);
        }
        args.push(ts);
        args
    }

    /// Splits on commas and spaces outside parentheses, tagging each token
    /// with the separator that terminated it. A space that directly follows
    /// a comma is suppressed, so `"a, b"` gives two tokens.
    #[verifier::loop_isolation(false)]
    pub fn split_into_separated_args(&self, line: &str) -> (r: Vec<ArgSeparated>)
        ensures
            asv_view(r@) == split_separated_args_model(line@),
    {
        let v = chars_of(line);
        let mut args: Vec<ArgSeparated> = Vec::new();
        let mut cur: Vec<char> = Vec::new();
        let mut inp: bool = false;
        let mut last_char: char = ' ';
        let mut last_sep: char = ' ';
        let mut i: usize = 0;
        while i < v.len()
            invariant
                i <= v@.len(),
                (asv_view(args@), cur@, inp, last_char, last_sep) == ssa_state(
                    v@.take(i as int),
                ),
            decreases v@.len() - i,
        {
            let c = v[i];
            if c == '(' {
                inp = true;
                cur.push(c);
                last_char = c;
            } else if c == ')' {
                inp = false;
                cur.push(c);
                last_char = c;
            } else if c == ',' {
                if inp {
                    cur.push(c);
                } else {
                    let t = trim_vec(&cur);
                    let a = ArgSeparated::Comma(string_of(&t));
                    proof {
                        lemma_asv_view_push(args@, a);
                    }
                    args.push(a);
                    cur = Vec::new();
                    last_sep = c;
                }
                last_char = c;
            } else if c == ' ' {
                if last_char == ',' {
                    // suppressed; the previous character stays the comma
                } else if inp {
                    cur.push(c);
                    last_char = c;
                } else if cur.len() == 0 {
                    // skipped; the previous character is unchanged
                } else {
                    let t = trim_vec(&cur);
                    let a = ArgSeparated::Space(string_of(&t));
                    proof {
                        lemma_asv_view_push(args@, a);
                    }
                    args.push(a);
                    cur = Vec::new();
                    last_sep = c;
                    last_char = c;
                }
            } else {
                cur.push(c);
                last_char = c;
            }
            i = i + 1;
            proof {
                assert(v@.take(i as int).drop_last() =~= v@.take(i as int - 1));
                assert(v@.take(i as int).last() == v@[i as int - 1]);
            }
        }
        proof {
            assert(v@.take(v@.len() as int) =~= v@);
        }
        let t = trim_vec(&cur);
        if t.len() == 0 {
            return args;
        }
        let a = if last_sep == ',' {
            ArgSeparated::Comma(string_of(&t))
        } else {
            ArgSeparated::Space(string_of(&t))
        };
        proof {
            lemma_asv_view_push(args@, a);
        }
        args.push(a);
        args
    }

    /// Splits at every single space character, keeping empty tokens.
    #[verifier::loop_isolation(false)]
    pub fn split_at_spaces(&self, line: &str) -> (r: Vec<String>)
        ensures
            strs_view(r@) == split_char(line@, ' '),
    {
        let v = chars_of(line);
        let pieces = split_char_x(&v, ' ');
        let mut r: Vec<String> = Vec::new();
        let mut i: usize = 0;
        while i < pieces.len()
            invariant
                i <= pieces@.len(),
                strs_view(r@) == vcs_view(pieces@).take(i as int),
            decreases pieces@.len() - i,
        {
            let s = string_of(&pieces[i]);
            proof {
                lemma_strs_view_push(r@, s);
                assert(vcs_view(pieces@)[i as int] == pieces@[i as int]@);
            }
            r.push(s);
            i = i + 1;
            proof {
                assert(vcs_view(pieces@).take(i as int) =~= vcs_view(pieces@).take(
                    i as int - 1,
                ).push(vcs_view(pieces@)[i as int - 1]));
            }
        }
        proof {
            assert(vcs_view(pieces@).take(pieces@.len() as int) =~= vcs_view(pieces@));
        }
        r
    }
}

} // verus!
