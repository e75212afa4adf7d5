//! Library-wide laws: properties that relate several functions of the
//! pipeline, stated over the same models that the functions' contracts use.

use vstd::prelude::*;

use crate::ast::{LineKindModel, LineModel, OperandKind};
use crate::classify::{
    immediate_matches, line_kind_of, operand_kind_of, post_matches, pre_matches,
};
use crate::lexer::{parsed_line_of, parsed_lines_of};
use crate::subst::{apply_equ_model, collect_defs, is_def_line, rewrite_line, subst_code};
use crate::text::{find_char, lemma_find_char, lower_seq, replace_all, split_lines, trim_seq};

verus! {

/// Ordering of the operand patterns: a token that matches the
/// post-increment shape always classifies as post-increment, one that
/// matches the pre-increment shape always classifies as pre-increment, and
/// one that starts with `#` (immediate) is never taken for an indirect
/// form. The priority order of the classifier makes these unconditional,
/// because the shapes that are checked earlier cannot match the same token.
pub proof fn lemma_classifier_priority(s: Seq<char>)
    ensures
        post_matches(s) ==> operand_kind_of(s) == OperandKind::PostIndirect,
        pre_matches(s) ==> operand_kind_of(s) == OperandKind::PreIndirect,
        immediate_matches(s) ==> operand_kind_of(s) == OperandKind::Immediate,
{
}

/// The variant of a parsed line agrees with a line-classification kind.
pub open spec fn line_matches_kind(p: LineModel, k: LineKindModel) -> bool {
    match p {
        LineModel::Label { .. } => k is Label,
        LineModel::Directive { .. } => k is Directive,
        LineModel::Instruction { .. } => k is Instruction,
        LineModel::Comment { .. } => k is Comment,
        LineModel::Empty => k is Empty,
        LineModel::Unknown => k is Unknown,
    }
}

/// Round trip: the original text stored in every parsed line, lowercased
/// and classified again, reproduces the classification under which the line
/// was parsed.
pub proof fn lemma_round_trip(code: Seq<char>, i: int)
    requires
        0 <= i < parsed_lines_of(code).len(),
    ensures
        ({
            let pl = parsed_lines_of(code)[i];
            line_matches_kind(pl.parsed, line_kind_of(lower_seq(pl.line)))
        }),
{
    let ls = apply_equ_model(split_lines(code));
    let pl = parsed_lines_of(code)[i];
    assert(pl == parsed_line_of(ls[i]));
    let t = trim_seq(ls[i]);
    let k = line_kind_of(lower_seq(t));
    assert(pl.line == t);
    assert(line_matches_kind(pl.parsed, k));
}

/// No line disappears: the output of lexing holds exactly one parsed line
/// per physical input line, blank and comment-only lines included.
pub proof fn lemma_line_count(code: Seq<char>)
    ensures
        parsed_lines_of(code).len() == split_lines(code).len(),
{
}

/// The pattern `pat` occurs somewhere in `s`.
pub open spec fn occurs(pat: Seq<char>, s: Seq<char>) -> bool {
    exists|j: int| 0 <= j <= s.len() - pat.len() && #[trigger] s.subrange(j, j + pat.len()) == pat
}

/// Replacement of a pattern that does not occur is the identity.
pub proof fn lemma_replace_absent(s: Seq<char>, pat: Seq<char>, rep: Seq<char>)
    requires
        pat.len() == 0 || !occurs(pat, s),
    ensures
        replace_all(s, pat, rep) == s,
    decreases s.len(),
{
    if pat.len() == 0 || s.len() < pat.len() {
    } else if s.take(pat.len() as int) == pat {
        assert(s.subrange(0, 0 + pat.len() as int) =~= s.take(pat.len() as int));
        assert(occurs(pat, s)) by {
            assert(0 <= 0 <= s.len() - pat.len() && s.subrange(0, 0 + pat.len() as int) == pat);
        }
    } else {
        let d = s.drop_first();
        if occurs(pat, d) {
            let j = choose|j: int|
                0 <= j <= d.len() - pat.len() && #[trigger] d.subrange(j, j + pat.len()) == pat;
            assert(s.subrange(j + 1, j + 1 + pat.len()) =~= d.subrange(j, j + pat.len()));
            assert(occurs(pat, s));
        }
        lemma_replace_absent(d, pat, rep);
        assert(seq![s[0]] + d =~= s);
    }
}

/// Substitution with bindings none of whose names occur in the text is the
/// identity.
pub proof fn lemma_subst_absent(c: Seq<char>, defs: Seq<(Seq<char>, Seq<char>)>)
    requires
        forall|k: int|
            0 <= k < defs.len() ==> (#[trigger] defs[k].0).len() == 0 || !occurs(defs[k].0, c),
    ensures
        subst_code(c, defs) == c,
    decreases defs.len(),
{
    if defs.len() > 0 {
        assert(defs[0] == defs.first());
        lemma_replace_absent(c, defs[0].0, defs[0].1);
        assert forall|k: int|
            0 <= k < defs.drop_first().len() implies (#[trigger] defs.drop_first()[k].0).len()
            == 0 || !occurs(defs.drop_first()[k].0, c) by {
            assert(defs.drop_first()[k] == defs[k + 1]);
        }
        lemma_subst_absent(c, defs.drop_first());
    }
}

/// Idempotence of the constant-substitution pass: re-running the pass on
/// its own output is a no-op, provided the output introduces no new
/// definitions and no binding name still occurs in the code portion of a
/// rewritten line. (Without those side conditions the pass is not
/// idempotent: a replacement can itself spell a binding name, or splice two
/// fragments into one.)
pub proof fn lemma_apply_equ_idempotent(ls: Seq<Seq<char>>)
    requires
        collect_defs(apply_equ_model(ls)) == collect_defs(ls),
        forall|i: int, k: int|
            (0 <= i < apply_equ_model(ls).len() && !is_def_line(apply_equ_model(ls)[i])
                && find_char(apply_equ_model(ls)[i], ';') != -1 && 0 <= k < collect_defs(
                ls,
            ).len()) ==> ((#[trigger] collect_defs(ls)[k].0).len() == 0 || !occurs(
                collect_defs(ls)[k].0,
                (#[trigger] apply_equ_model(ls)[i]).take(find_char(apply_equ_model(ls)[i], ';')),
            )),
    ensures
        apply_equ_model(apply_equ_model(ls)) == apply_equ_model(ls),
{
    let out = apply_equ_model(ls);
    let defs = collect_defs(ls);
    assert(out.len() == ls.len());
    assert forall|i: int| 0 <= i < out.len() implies #[trigger] rewrite_line(out[i], defs)
        == out[i] by {
        if !is_def_line(out[i]) {
            let p = find_char(out[i], ';');
            if p != -1 {
                lemma_find_char(out[i], ';');
                assert forall|k: int|
                    0 <= k < defs.len() implies (#[trigger] defs[k].0).len() == 0 || !occurs(
                    defs[k].0,
                    out[i].take(p),
                ) by {}
                lemma_subst_absent(out[i].take(p), defs);
                assert(out[i].take(p) + seq![';'] + out[i].skip(p + 1) =~= out[i]);
            }
        }
    }
    assert(apply_equ_model(out) =~= out);
}

} // verus!
