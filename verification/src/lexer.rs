//! The lexer facade: orchestrates the constant-substitution pass, line
//! classification, operand splitting and operand-tree building, and stores
//! one [`ParsedLine`] per physical input line.

use vstd::prelude::*;

use crate::ast::{pls_view, strs_view, Line, LineKind, LineModel, ParsedLine, ParsedLineModel};
use crate::classify::{line_kind_of, AsmRegex};
use crate::split::split_operand_args_model;
use crate::subst::apply_equ_model;
use crate::text::{
    chars_of, join_with, lower_char_x, lower_seq, replace_all, split_char, split_lines, string_of,
    trim_seq, trim_vec,
};

verus! {

/// The whole-text model of lexing: the constant-substitution pass rewrites
/// the physical lines, then every line is trimmed, classified on its
/// lowercased form, and dispatched by kind.
pub open spec fn parsed_line_of(l: Seq<char>) -> ParsedLineModel {
    let t = trim_seq(l);
    let low = lower_seq(t);
    let k = line_kind_of(low);
    let args = split_char(t, ' ');
    let parsed = match k {
        crate::ast::LineKindModel::Instruction { size, name } => LineModel::Instruction {
            name: name,
            size: size,
            operands: crate::parse::parse_operands_model(
                split_operand_args_model(join_with(args.skip(1), ' ')),
            ),
        },
        crate::ast::LineKindModel::Comment => LineModel::Comment { content: t },
        crate::ast::LineKindModel::Label => LineModel::Label {
            name: replace_all(args[0], seq![':'], Seq::empty()),
            args: crate::split::split_separated_args_model(join_with(args.skip(1), ' ')),
        },
        crate::ast::LineKindModel::Directive => LineModel::Directive { args: args },
        crate::ast::LineKindModel::Empty => LineModel::Empty,
        crate::ast::LineKindModel::Unknown => LineModel::Unknown,
    };
    ParsedLineModel { parsed: parsed, line: t }
}

/// The ordered sequence of parsed lines of a whole source text: one entry
/// per physical line, in input order, after constant substitution.
pub open spec fn parsed_lines_of(code: Seq<char>) -> Seq<ParsedLineModel> {
    apply_equ_model(split_lines(code)).map_values(|l: Seq<char>| parsed_line_of(l))
}

/// The lexer facade. Its abstract state is the sequence of parsed lines
/// produced by the most recent [`Lexer::lex`] call.
pub struct Lexer {
    pub(crate) lines: Vec<ParsedLine>,
    pub(crate) regex: AsmRegex,
}

impl View for Lexer {
    type V = Seq<ParsedLineModel>;

    closed spec fn view(&self) -> Seq<ParsedLineModel> {
        pls_view(self.lines@)
    }
}

impl Lexer {
    /// A fresh lexer with no parsed lines.
    pub fn new() -> (l: Lexer)
        ensures
            l@ == Seq::<ParsedLineModel>::empty(),
    {
        let l = Lexer { lines: Vec::new(), regex: AsmRegex::new() };
        proof {
            assert(l@ =~= Seq::<ParsedLineModel>::empty());
        }
        l
    }

    /// A copy of the parsed lines, in input order.
    #[verifier::loop_isolation(false)]
    pub fn get_lines(&self) -> (r: Vec<ParsedLine>)
        ensures
            pls_view(r@) == self@,
    {
        let mut r: Vec<ParsedLine> = Vec::new();
        let mut i: usize = 0;
        while i < self.lines.len()
            invariant
                i <= self.lines@.len(),
                r@.len() == i,
                forall|j: int| 0 <= j < i ==> r@[j]@ == self.lines@[j]@,
            decreases self.lines@.len() - i,
        {
            r.push(self.lines[i].clone());
            i = i + 1;
        }
        proof {
            assert(pls_view(r@) =~= pls_view(self.lines@));
        }
        r
    }
}

/// Splits a source text into its physical lines.
#[verifier::loop_isolation(false)]
fn split_lines_x(s: &str) -> (r: Vec<String>)
    ensures
        strs_view(r@) == split_lines(s@),
{
    let v = chars_of(s);
    let mut pieces: Vec<String> = Vec::new();
    let mut cur: Vec<char> = Vec::new();
    proof {
        assert(strs_view(pieces@) =~= Seq::<Seq<char>>::empty());
    }
    let mut i: usize = 0;
    while i < v.len()
        invariant
            i <= v@.len(),
            (strs_view(pieces@), cur@) == crate::text::split_lines_state(v@.take(i as int)),
        decreases v@.len() - i,
    {
        let c = v[i];
        if c == '\n' {
            if cur.len() > 0 && cur[cur.len() - 1] == '\r' {
                proof {
                    assert(cur@.drop_last() =~= crate::text::strip_cr(cur@));
                }
                let _popped = cur.pop();
            } else {
                proof {
                    assert(cur@ =~= crate::text::strip_cr(cur@));
                }
            }
            let piece = string_of(&cur);
            proof {
                crate::ast::lemma_strs_view_push(pieces@, piece);
            }
            pieces.push(piece);
            cur = Vec::new();
        } else {
            cur.push(c);
        }
        i = i + 1;
        proof {
            assert(v@.take(i as int).drop_last() =~= v@.take(i as int - 1));
            assert(v@.take(i as int).last() == v@[i as int - 1]);
        }
    }
    proof {
        assert(v@.take(v@.len() as int) =~= v@);
    }
    if cur.len() > 0 {
        let piece = string_of(&cur);
        proof {
            crate::ast::lemma_strs_view_push(pieces@, piece);
        }
        pieces.push(piece);
    }
    pieces
}

/// ASCII lowercasing of a whole vector.
#[verifier::loop_isolation(false)]
fn lower_vec(v: &Vec<char>) -> (r: Vec<char>)
    ensures
        r@ == lower_seq(v@),
{
    let mut r: Vec<char> = Vec::new();
    let mut i: usize = 0;
    while i < v.len()
        invariant
            i <= v@.len(),
            r@.len() == i,
            forall|j: int| 0 <= j < i ==> r@[j] == crate::text::lower_char(v@[j]),
        decreases v@.len() - i,
    {
        r.push(lower_char_x(v[i]));
        i = i + 1;
    }
    proof {
        assert(r@ =~= lower_seq(v@));
    }
    r
}

/// Joins every token after the first with single spaces, as the facade does
/// before re-splitting an instruction's operand list or a label's argument
/// list.
#[verifier::loop_isolation(false)]
fn join_tail(args: &Vec<String>) -> (r: String)
    requires
        args@.len() >= 1,
    ensures
        r@ == join_with(strs_view(args@).skip(1), ' '),
{
    let ghost q = strs_view(args@).skip(1);
    let mut out: Vec<char> = Vec::new();
    if args.len() == 1 {
        proof {
            assert(q =~= Seq::<Seq<char>>::empty());
        }
        return string_of(&out);
    }
    let mut k: usize = 1;
    proof {
        assert(q.take(0) =~= Seq::<Seq<char>>::empty());
    }
    while k < args.len()
        invariant
            1 <= k <= args@.len(),
            out@ == join_with(q.take(k - 1), ' '),
        decreases args@.len() - k,
    {
        if k > 1 {
            out.push(' ');
        }
        let cs = chars_of(args[k].as_str());
        let ghost out_snap = out@;
        let mut m: usize = 0;
        while m < cs.len()
            invariant
                m <= cs@.len(),
                out@ == out_snap + cs@.take(m as int),
            decreases cs@.len() - m,
        {
            out.push(cs[m]);
            m = m + 1;
            proof {
                assert(cs@.take(m as int) =~= cs@.take(m as int - 1).push(cs@[m as int - 1]));
            }
        }
        proof {
            assert(cs@.take(cs@.len() as int) =~= cs@);
            assert(q[k - 1] == strs_view(args@)[k as int]);
            assert(strs_view(args@)[k as int] == args@[k as int]@);
            assert(q.take(k as int) =~= q.take(k - 1).push(q[k - 1]));
            crate::text::lemma_join_push(q.take(k - 1), q[k - 1], ' ');
            if k == 1 {
                assert(q.take(0).len() == 0);
                assert(out@ =~= q[0]);
            } else {
                assert(out@ =~= join_with(q.take(k - 1), ' ') + seq![' '] + q[k - 1]);
            }
            assert(out@ == join_with(q.take(k as int), ' '));
        }
        k = k + 1;
    }
    proof {
        assert(q.take(q.len() as int) =~= q);
    }
    string_of(&out)
}

/// A one-character vector holding a colon.
fn colon_vec() -> (r: Vec<char>)
    ensures
        r@ == seq![':'],
{
    let mut r: Vec<char> = Vec::new();
    r.push(':');
    proof {
        assert(r@ =~= seq![':']);
    }
    r
}

impl Lexer {
    /// Classifies and parses one (already substituted) source line.
    #[verifier::rlimit(80)]
    fn build_parsed_line(&self, line: &String) -> (pl: ParsedLine)
        ensures
            pl@ == parsed_line_of(line@),
    {
        let v = chars_of(line.as_str());
        let t_v = trim_vec(&v);
        let t_str = string_of(&t_v);
        let low_v = lower_vec(&t_v);
        let low_str = string_of(&low_v);
        let kind = self.regex.get_line_kind(&low_str);
        let args = self.regex.split_at_spaces(t_str.as_str());
        proof {
            assert(strs_view(args@).len() == args@.len());
            assert(strs_view(args@) == split_char(t_v@, ' '));
        }
        let parsed = match kind {
            LineKind::Instruction { size, name } => {
                let rem = join_tail(&args);
                let op_strs = self.regex.split_into_operand_args(rem.as_str());
                let ops = self.parse_operands(op_strs);
                Line::Instruction { name: name, size: size, operands: ops }
            },
            LineKind::Comment => Line::Comment { content: t_str.clone() },
            LineKind::Label => {
                let a0 = chars_of(args[0].as_str());
                proof {
                    assert(strs_view(args@)[0] == args@[0]@);
                }
                let colon = colon_vec();
                let emptyv: Vec<char> = Vec::new();
                let name_v = crate::subst::replace_all_x(&a0, &colon, &emptyv);
                let rem = join_tail(&args);
                let sep_args = self.regex.split_into_separated_args(rem.as_str());
                Line::Label { name: string_of(&name_v), args: sep_args }
            },
            LineKind::Directive => Line::Directive { args: args },
            LineKind::Empty => Line::Empty,
            LineKind::Unknown => Line::Unknown,
        };
        ParsedLine { parsed: parsed, line: t_str }
    }

    /// Lexes a whole source text: substitution first, then one parsed line
    /// per physical input line, in input order.
    #[verifier::loop_isolation(false)]
    pub fn lex(&mut self, code: String)
        ensures
            final(self)@ == parsed_lines_of(code@),
    {
        let lines0 = split_lines_x(code.as_str());
        let lines1 = self.apply_equ(lines0);
        let ghost ls2 = strs_view(lines1@);
        let mut res: Vec<ParsedLine> = Vec::new();
        let mut i: usize = 0;
        while i < lines1.len()
            invariant
                i <= lines1@.len(),
                res@.len() == i,
                forall|j: int| 0 <= j < i ==> res@[j]@ == parsed_line_of(ls2[j]),
            decreases lines1@.len() - i,
        {
            proof {
                assert(ls2[i as int] == lines1@[i as int]@);
            }
            let pl = self.build_parsed_line(&lines1[i]);
            res.push(pl);
            i = i + 1;
        }
        self.lines = res;
        proof {
            assert(pls_view(self.lines@) =~= parsed_lines_of(code@));
        }
    }
}

} // verus!
