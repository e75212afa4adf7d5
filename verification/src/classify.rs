//! Pattern classifier: ordered pattern checks that categorize an operand
//! token into an addressing-mode kind, and a whole line into a line kind.
//!
//! The checks are tried in a fixed priority order; several patterns are not
//! mutually exclusive on raw text, so the order is part of the contract.

use vstd::prelude::*;

use crate::ast::{LineKind, LineKindModel, OperandKind, Size};
use crate::text::{
    chars_of, is_digit, is_space, non_space_range, non_space_range_x, split_char, split_char_x,
    string_of, trim_seq, trim_vec, vcs_view, ws_tokens, ws_tokens_x,
};

verus! {

/// Two characters forming a register name: `d<digit>`, `a<digit>` or `sp`.
pub open spec fn register_pair(a: char, b: char) -> bool {
    (a == 's' && b == 'p') || ((a == 'd' || a == 'a') && is_digit(b))
}

/// The token is exactly a register name.
pub open spec fn register_matches(s: Seq<char>) -> bool {
    s.len() == 2 && register_pair(s[0], s[1])
}

/// The token is `#` followed by at least one non-space character.
pub open spec fn immediate_matches(s: Seq<char>) -> bool {
    s.len() >= 2 && s[0] == '#' && non_space_range(s, 1, s.len() as int)
}

/// The token is `(...)+` with a nonempty non-space inside.
pub open spec fn post_matches(s: Seq<char>) -> bool {
    s.len() >= 4 && s[0] == '(' && s[s.len() - 2] == ')' && s[s.len() - 1] == '+'
        && non_space_range(s, 1, s.len() - 2)
}

/// The token is `-(...)` with a nonempty non-space inside.
pub open spec fn pre_matches(s: Seq<char>) -> bool {
    s.len() >= 4 && s[0] == '-' && s[1] == '(' && s[s.len() - 1] == ')' && non_space_range(
        s,
        2,
        s.len() - 1,
    )
}

/// The token is a non-space prefix followed by a single register in
/// parentheses: `<prefix>(<register>)`.
pub open spec fn indirect_matches(s: Seq<char>) -> bool {
    s.len() >= 4 && non_space_range(s, 0, s.len() as int) && s[s.len() - 1] == ')' && s[s.len()
        - 4] == '(' && register_pair(s[s.len() - 3], s[s.len() - 2])
}

/// The token contains at least one comma.
pub open spec fn displacement_matches(s: Seq<char>) -> bool {
    exists|i: int| 0 <= i < s.len() && s[i] == ','
}

/// The token is `$` followed by non-space characters (possibly none).
pub open spec fn address_matches(s: Seq<char>) -> bool {
    s.len() >= 1 && s[0] == '$' && non_space_range(s, 1, s.len() as int)
}

/// The addressing-mode kind of an operand token, by priority order:
/// register, post-increment, pre-increment, immediate, indirect,
/// indirect-with-displacement, absolute address, and label as the fallback.
pub open spec fn operand_kind_of(s: Seq<char>) -> OperandKind {
    if register_matches(s) {
        OperandKind::Register
    } else if post_matches(s) {
        OperandKind::PostIndirect
    } else if pre_matches(s) {
        OperandKind::PreIndirect
    } else if immediate_matches(s) {
        OperandKind::Immediate
    } else if indirect_matches(s) {
        OperandKind::Indirect
    } else if displacement_matches(s) {
        OperandKind::IndirectDisplacement
    } else if address_matches(s) {
        OperandKind::Address
    } else {
        OperandKind::Label
    }
}

/// The keyword vocabulary of directive tokens.
pub open spec fn is_directive_tok(t: Seq<char>) -> bool {
    ||| t == seq!['o', 'r', 'g']
    ||| t == seq!['e', 'q', 'u']
    ||| t == seq!['d', 'c']
    ||| t == seq!['d', 's']
    ||| t == seq!['d', 'c', 'b']
    ||| t == seq!['e', 'n', 'd']
}

/// A line opening with a run of non-space characters that reaches a colon
/// after at least one character: `<token>:...`.
pub open spec fn label_line_matches(t: Seq<char>) -> bool {
    exists|i: int|
        1 <= i < t.len() && t[i] == ':' && (forall|j: int| 0 <= j < i ==> !is_space(t[j]))
}

/// The operation width named by a mnemonic suffix.
pub open spec fn suffix_size(p: Seq<char>) -> Size {
    if p == seq!['b'] {
        Size::Byte
    } else if p == seq!['w'] {
        Size::Word
    } else if p == seq!['l'] {
        Size::Long
    } else {
        Size::Unknown
    }
}

/// Splits a mnemonic token on `.`: one piece means no suffix, two pieces
/// decode the suffix, and any other shape keeps the token unchanged with an
/// unspecified size.
pub open spec fn split_instr_size(tok: Seq<char>) -> (Seq<char>, Size) {
    let parts = split_char(tok, '.');
    if parts.len() == 1 {
        (parts[0], Size::Unspecified)
    } else if parts.len() == 2 {
        (parts[0], suffix_size(parts[1]))
    } else {
        (tok, Size::Unspecified)
    }
}

/// Classification of a whole (already lowercased) line, by priority order:
/// empty, comment, label, directive, two-or-more-token instruction, unknown.
pub open spec fn line_kind_of(line: Seq<char>) -> LineKindModel {
    let t = trim_seq(line);
    let toks = ws_tokens(t);
    if toks.len() == 0 {
        LineKindModel::Empty
    } else if t.len() > 0 && t[0] == ';' {
        LineKindModel::Comment
    } else if label_line_matches(t) {
        LineKindModel::Label
    } else if exists|k: int| 0 <= k < toks.len() && is_directive_tok(toks[k]) {
        LineKindModel::Directive
    } else if toks.len() >= 2 {
        LineKindModel::Instruction {
            size: split_instr_size(toks[0]).1,
            name: split_instr_size(toks[0]).0,
        }
    } else {
        LineKindModel::Unknown
    }
}

/// Executable digit test.
pub fn is_digit_x(c: char) -> (r: bool)
    ensures
        r == is_digit(c),
{
    let u: u32 = c as u32;
    48 <= u && u <= 57
}

/// Executable register-pair test.
pub fn register_pair_x(a: char, b: char) -> (r: bool)
    ensures
        r == register_pair(a, b),
{
    (a == 's' && b == 'p') || ((a == 'd' || a == 'a') && is_digit_x(b))
}

/// Whether `v` equals the two-character word `ab`.
fn eq2(v: &Vec<char>, a: char, b: char) -> (r: bool)
    ensures
        r == (v@ == seq![a, b]),
{
    let e = v.len() == 2 && v[0] == a && v[1] == b;
    proof {
        if e {
            assert(v@ =~= seq![a, b]);
        }
    }
    e
}

/// Whether `v` equals the three-character word `abc`.
fn eq3(v: &Vec<char>, a: char, b: char, c: char) -> (r: bool)
    ensures
        r == (v@ == seq![a, b, c]),
{
    let e = v.len() == 3 && v[0] == a && v[1] == b && v[2] == c;
    proof {
        if e {
            assert(v@ =~= seq![a, b, c]);
        }
    }
    e
}

/// Executable directive-vocabulary test.
pub fn is_directive_x(v: &Vec<char>) -> (r: bool)
    ensures
        r == is_directive_tok(v@),
{
    eq3(v, 'o', 'r', 'g') || eq3(v, 'e', 'q', 'u') || eq2(v, 'd', 'c') || eq2(v, 'd', 's') || eq3(
        v,
        'd',
        'c',
        'b',
    ) || eq3(v, 'e', 'n', 'd')
}

/// Executable operand classifier over a character vector.
pub fn operand_kind_vec(v: &Vec<char>) -> (k: OperandKind)
    ensures
        k == operand_kind_of(v@),
{
    let n = v.len();
    if n == 2 && register_pair_x(v[0], v[1]) {
        OperandKind::Register
    } else if n >= 4 && v[0] == '(' && v[n - 2] == ')' && v[n - 1] == '+' && non_space_range_x(
        v,
        1,
        n - 2,
    ) {
        OperandKind::PostIndirect
    } else if n >= 4 && v[0] == '-' && v[1] == '(' && v[n - 1] == ')' && non_space_range_x(
        v,
        2,
        n - 1,
    ) {
        OperandKind::PreIndirect
    } else if n >= 2 && v[0] == '#' && non_space_range_x(v, 1, n) {
        OperandKind::Immediate
    } else if n >= 4 && non_space_range_x(v, 0, n) && v[n - 1] == ')' && v[n - 4] == '('
        && register_pair_x(v[n - 3], v[n - 2]) {
        OperandKind::Indirect
    } else if contains_comma(v) {
        OperandKind::IndirectDisplacement
    } else if n >= 1 && v[0] == '$' && non_space_range_x(v, 1, n) {
        OperandKind::Address
    } else {
        OperandKind::Label
    }
}

/// Whether `v` contains a comma.
fn contains_comma(v: &Vec<char>) -> (r: bool)
    ensures
        r == displacement_matches(v@),
{
    let mut j: usize = 0;
    while j < v.len()
        invariant
            j <= v@.len(),
            forall|k: int| 0 <= k < j ==> v@[k] != ',',
        decreases v@.len() - j,
    {
        if v[j] == ',' {
            assert(v@[j as int] == ',');
            return true;
        }
        j = j + 1;
    }
    false
}

/// The ordered pattern matchers of the lexer. The patterns are fixed, so the
/// value carries no state; it exists so that callers use the matchers as the
/// lexer does, through one value.
pub struct AsmRegex {}

impl AsmRegex {
    /// A fresh set of pattern matchers.
    pub fn new() -> (r: Self) {
        AsmRegex {  }
    }

    /// Classifies one operand token by the fixed priority order.
    pub fn get_operand_kind(&self, operand: &String) -> (k: OperandKind)
        ensures
            k == operand_kind_of(operand@),
    {
        let v = chars_of(operand.as_str());
        operand_kind_vec(&v)
    }

    /// Splits a mnemonic token into its name and decoded size suffix.
    pub fn split_instruction_and_size(&self, instruction: &String) -> (r: (String, Size))
        ensures
            r.0@ == split_instr_size(instruction@).0,
            r.1 == split_instr_size(instruction@).1,
    {
        let v = chars_of(instruction.as_str());
        split_instr_vec(&v)
    }

    /// Classifies a whole line; the line is trimmed here, and the caller is
    /// expected to have lowercased it.
    #[verifier::loop_isolation(false)]
    pub fn get_line_kind(&self, line: &String) -> (k: LineKind)
        ensures
            k@ == line_kind_of(line@),
    {
        let v = chars_of(line.as_str());
        let t = trim_vec(&v);
        let toks = ws_tokens_x(&t);
        if toks.len() == 0 {
            return LineKind::Empty;
        }
        proof {
            if t@.len() == 0 {
                assert(ws_tokens(t@).len() == 0);
            }
            assert(vcs_view(toks@).len() == toks@.len());
        }
        if t[0] == ';' {
            return LineKind::Comment;
        }
        if label_scan(&t) {
            return LineKind::Label;
        }
        let mut k: usize = 0;
        while k < toks.len()
            invariant
                k <= toks@.len(),
                forall|j: int| 0 <= j < k ==> !is_directive_tok(vcs_view(toks@)[j]),
            decreases toks@.len() - k,
        {
            if is_directive_x(&toks[k]) {
                proof {
                    assert(vcs_view(toks@)[k as int] == toks@[k as int]@);
                }
                return LineKind::Directive;
            }
            proof {
                assert(vcs_view(toks@)[k as int] == toks@[k as int]@);
            }
            k = k + 1;
        }
        if toks.len() >= 2 {
            proof {
                assert(vcs_view(toks@)[0] == toks@[0]@);
            }
            let (name, size) = split_instr_vec(&toks[0]);
            return LineKind::Instruction { size, name };
        }
        LineKind::Unknown
    }
}

/// Scans for the label pattern: a colon after one or more characters, all of
/// them non-space.
fn label_scan(t: &Vec<char>) -> (r: bool)
    ensures
        r == label_line_matches(t@),
{
    let mut j: usize = 0;
    while j < t.len()
        invariant
            j <= t@.len(),
            forall|k: int| 0 <= k < j ==> !is_space(t@[k]),
            forall|k: int| 1 <= k < j ==> t@[k] != ':',
        decreases t@.len() - j,
    {
        if is_space_at(t, j) {
            proof {
                assert forall|i: int| !(1 <= i < t@.len() && t@[i] == ':' && (forall|m: int|
                    0 <= m < i ==> !is_space(t@[m]))) by {
                    if 1 <= i < t@.len() && t@[i] == ':' {
                        if i < j {
                        } else {
                            assert(is_space(t@[j as int]));
                        }
                    }
                }
            }
            return false;
        }
        if j >= 1 && t[j] == ':' {
            proof {
                assert(1 <= j < t@.len() && t@[j as int] == ':' && (forall|m: int|
                    0 <= m < j ==> !is_space(t@[m])));
            }
            return true;
        }
        j = j + 1;
    }
    proof {
        assert forall|i: int| !(1 <= i < t@.len() && t@[i] == ':' && (forall|m: int|
            0 <= m < i ==> !is_space(t@[m]))) by {
        }
    }
    false
}

/// Whether `t[j]` is whitespace.
fn is_space_at(t: &Vec<char>, j: usize) -> (r: bool)
    requires
        j < t@.len(),
    ensures
        r == is_space(t@[j as int]),
{
    crate::text::is_space_x(t[j])
}

/// Splits a mnemonic character vector into its name and size.
fn split_instr_vec(tok: &Vec<char>) -> (r: (String, Size))
    ensures
        r.0@ == split_instr_size(tok@).0,
        r.1 == split_instr_size(tok@).1,
{
    let parts = split_char_x(tok, '.');
    proof {
        assert(vcs_view(parts@).len() == parts@.len());
    }
    if parts.len() == 1 {
        proof {
            assert(vcs_view(parts@)[0] == parts@[0]@);
        }
        (string_of(&parts[0]), Size::Unspecified)
    } else if parts.len() == 2 {
        proof {
            assert(vcs_view(parts@)[0] == parts@[0]@);
            assert(vcs_view(parts@)[1] == parts@[1]@);
        }
        let p1 = &parts[1];
        let size = if eq1(p1, 'b') {
            Size::Byte
        } else if eq1(p1, 'w') {
            Size::Word
        } else if eq1(p1, 'l') {
            Size::Long
        } else {
            Size::Unknown
        };
        (string_of(&parts[0]), size)
    } else {
        (string_of(tok), Size::Unspecified)
    }
}

/// Whether `v` equals the one-character word `a`.
fn eq1(v: &Vec<char>, a: char) -> (r: bool)
    ensures
        r == (v@ == seq![a]),
{
    let e = v.len() == 1 && v[0] == a;
    proof {
        if e {
            assert(v@ =~= seq![a]);
        }
    }
    e
}

} // verus!
