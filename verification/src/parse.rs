//! Operand tree builder: decomposes a classified operand token into its
//! typed addressing-mode tree, recursing through the splitter for nested
//! operand lists inside parentheses.

use vstd::prelude::*;

use crate::ast::{lemma_ops_view_push, ops_view, strs_view, LexError, LexErrorModel, Operand,
    OperandKind, OperandModel, RegisterType};
use crate::classify::{operand_kind_of, operand_kind_vec};
use crate::lexer::Lexer;
use crate::split::{lemma_split_operand_args_bound, split_operand_args_model};
use crate::subst::replace_all_x;
use crate::text::{
    chars_of, contains_char_x, count_char, find_char, find_char_x, replace_all, string_of, subvec,
    trim_seq, trim_vec,
};

verus! {

/// Decodes a register token from its first character; any other first
/// character (or an empty token) is a typed error.
pub open spec fn reg_decode(s: Seq<char>) -> Result<RegisterType, LexErrorModel> {
    if s.len() > 0 && s[0] == 'd' {
        Ok(RegisterType::Data)
    } else if s.len() > 0 && s[0] == 'a' {
        Ok(RegisterType::Address)
    } else if s.len() > 0 && s[0] == 's' {
        Ok(RegisterType::SP)
    } else {
        Err(LexErrorModel::UnrecognizedRegister { token: s })
    }
}

/// The text parsed recursively inside a post-increment operand: every `(`
/// and every `)+` removed.
pub open spec fn post_inner(s: Seq<char>) -> Seq<char> {
    replace_all(replace_all(s, seq!['('], Seq::empty()), seq![')', '+'], Seq::empty())
}

/// The text parsed recursively inside a pre-increment operand: every `-(`
/// and every `)` removed.
pub open spec fn pre_inner(s: Seq<char>) -> Seq<char> {
    replace_all(replace_all(s, seq!['-', '('], Seq::empty()), seq![')'], Seq::empty())
}

/// One trailing `)` stripped, if present.
pub open spec fn strip_trailing_paren(s: Seq<char>) -> Seq<char> {
    if s.len() > 0 && s.last() == ')' {
        s.drop_last()
    } else {
        s
    }
}

/// The addressing-mode tree of one trimmed operand token.
///
/// An indirect form is decomposed only when the token holds exactly one `(`;
/// one nested operand gives `Indirect`, two or more give
/// `IndirectWithDisplacement`, and an empty nested list (or a token whose
/// parentheses cannot be decomposed) gives `Other`. The length guards on the
/// recursive positions never fail on tokens of the kinds that reach them;
/// they bound the recursion structurally.
pub open spec fn parse_operand_model(s: Seq<char>) -> OperandModel
    decreases s.len(), 1int, 0int,
{
    match operand_kind_of(s) {
        OperandKind::Immediate => OperandModel::Immediate(s),
        OperandKind::Register => match reg_decode(s) {
            Ok(t) => OperandModel::Register(t, s),
            Err(_) => OperandModel::Other(s),
        },
        OperandKind::Address => OperandModel::Address(s),
        OperandKind::Label => OperandModel::Label(s),
        OperandKind::PostIndirect => {
            let inner = post_inner(s);
            if inner.len() < s.len() {
                OperandModel::PostIndirect(Box::new(parse_operand_model(inner)))
            } else {
                OperandModel::Other(s)
            }
        },
        OperandKind::PreIndirect => {
            let inner = pre_inner(s);
            if inner.len() < s.len() {
                OperandModel::PreIndirect(Box::new(parse_operand_model(inner)))
            } else {
                OperandModel::Other(s)
            }
        },
        OperandKind::Indirect | OperandKind::IndirectDisplacement => {
            let p = find_char(s, '(');
            if p != -1 && count_char(s, '(') == 1 {
                let offset = trim_seq(s.take(p));
                let inner = strip_trailing_paren(s.skip(p + 1));
                let toks = split_operand_args_model(inner);
                let ops = parse_list_model(toks, s.len() as int);
                if ops.len() == 1 {
                    OperandModel::Indirect { offset: offset, operand: Box::new(ops[0]) }
                } else if ops.len() >= 2 {
                    OperandModel::IndirectWithDisplacement { offset: offset, operands: ops }
                } else {
                    OperandModel::Other(s)
                }
            } else {
                OperandModel::Other(s)
            }
        },
    }
}

/// Parses a token list up to (but excluding) the first token that carries a
/// comment marker; `bound` strictly dominates every parsed token's length.
pub open spec fn parse_list_model(toks: Seq<Seq<char>>, bound: int) -> Seq<OperandModel>
    decreases bound, 0int, toks.len(),
{
    if toks.len() == 0 {
        Seq::empty()
    } else if toks[0].contains(';') {
        Seq::empty()
    } else {
        let hd = if 0 <= toks[0].len() < bound {
            parse_operand_model(toks[0])
        } else {
            OperandModel::Other(toks[0])
        };
        seq![hd] + parse_list_model(toks.drop_first(), bound)
    }
}

/// Parses a token list up to (but excluding) the first token that carries a
/// comment marker.
pub open spec fn parse_operands_model(toks: Seq<Seq<char>>) -> Seq<OperandModel>
    decreases toks.len(),
{
    if toks.len() == 0 {
        Seq::empty()
    } else if toks[0].contains(';') {
        Seq::empty()
    } else {
        seq![parse_operand_model(toks[0])] + parse_operands_model(toks.drop_first())
    }
}

/// The typed register-decoding step: the only fallible step of operand
/// parsing. It fails exactly on tokens whose first character is not a
/// register letter.
pub fn register_type_of(token: &String) -> (r: Result<RegisterType, LexError>)
    ensures
        reg_decode(token@) is Ok <==> r is Ok,
        r is Ok ==> r->Ok_0 == reg_decode(token@)->Ok_0,
        r is Err ==> r->Err_0@ == reg_decode(token@)->Err_0,
{
    let n = token.as_str().unicode_len();
    if n > 0 {
        let c = token.as_str().get_char(0);
        if c == 'd' {
            return Ok(RegisterType::Data);
        }
        if c == 'a' {
            return Ok(RegisterType::Address);
        }
        if c == 's' {
            return Ok(RegisterType::SP);
        }
    }
    Err(LexError::UnrecognizedRegister { token: token.clone() })
}

/// An empty character vector.
fn cvec0() -> (r: Vec<char>)
    ensures
        r@ == Seq::<char>::empty(),
{
    let r: Vec<char> = Vec::new();
    r
}

/// A one-character vector.
fn cvec1(a: char) -> (r: Vec<char>)
    ensures
        r@ == seq![a],
{
    let mut r: Vec<char> = Vec::new();
    r.push(a);
    proof {
        assert(r@ =~= seq![a]);
    }
    r
}

/// A two-character vector.
fn cvec2(a: char, b: char) -> (r: Vec<char>)
    ensures
        r@ == seq![a, b],
{
    let mut r: Vec<char> = Vec::new();
    r.push(a);
    r.push(b);
    proof {
        assert(r@ =~= seq![a, b]);
    }
    r
}

/// Occurrences of `c` in `v`.
fn count_char_x(v: &Vec<char>, c: char) -> (n: usize)
    ensures
        n as int == count_char(v@, c),
{
    let mut n: usize = 0;
    let mut i: usize = 0;
    while i < v.len()
        invariant
            i <= v@.len(),
            n <= i,
            n as int == count_char(v@.take(i as int), c),
        decreases v@.len() - i,
    {
        if v[i] == c {
            n = n + 1;
        }
        i = i + 1;
        proof {
            assert(v@.take(i as int).drop_last() =~= v@.take(i as int - 1));
            assert(v@.take(i as int).last() == v@[i as int - 1]);
        }
    }
    proof {
        assert(v@.take(v@.len() as int) =~= v@);
    }
    n
}

impl Lexer {
    /// Parses each operand token, stopping at the first token that contains
    /// an embedded comment marker; everything from that token on is
    /// discarded.
    #[verifier::loop_isolation(false)]
    pub fn parse_operands(&self, operands: Vec<String>) -> (r: Vec<Operand>)
        ensures
            ops_view(r@) == parse_operands_model(strs_view(operands@)),
    {
        let ghost full = strs_view(operands@);
        let mut r: Vec<Operand> = Vec::new();
        proof {
            assert(full.skip(0) =~= full);
            assert(ops_view(r@) + parse_operands_model(full) =~= parse_operands_model(full));
        }
        let mut k: usize = 0;
        while k < operands.len()
            invariant
                k <= operands@.len(),
                parse_operands_model(full) == ops_view(r@) + parse_operands_model(
                    full.skip(k as int),
                ),
            decreases operands@.len() - k,
        {
            let cs = chars_of(operands[k].as_str());
            proof {
                assert(full[k as int] == operands@[k as int]@);
                assert(full.skip(k as int)[0] == full[k as int]);
            }
            if contains_char_x(&cs, ';') {
                proof {
                    assert(parse_operands_model(full.skip(k as int)) =~= Seq::<
                        OperandModel,
                    >::empty());
                    assert(ops_view(r@) + Seq::<OperandModel>::empty() =~= ops_view(r@));
                }
                return r;
            }
            let op = self.parse_operand(&operands[k]);
            proof {
                lemma_ops_view_push(r@, op);
                assert(full.skip(k as int).drop_first() =~= full.skip(k as int + 1));
            }
            r.push(op);
            k = k + 1;
        }
        proof {
            assert(full.skip(full.len() as int) =~= Seq::<Seq<char>>::empty());
            assert(parse_operands_model(Seq::<Seq<char>>::empty()) =~= Seq::<
                OperandModel,
            >::empty());
            assert(ops_view(r@) + Seq::<OperandModel>::empty() =~= ops_view(r@));
        }
        r
    }

    /// As [`Lexer::parse_operands`], under a ghost bound that dominates the
    /// token lengths; the bound carries the termination measure of the
    /// mutual recursion with [`Lexer::parse_operand`].
    #[verifier::loop_isolation(false)]
    fn parse_list_x(&self, operands: &Vec<String>, Ghost(bound): Ghost<int>) -> (r: Vec<Operand>)
        requires
            forall|j: int|
                0 <= j < operands@.len() ==> #[trigger] strs_view(operands@)[j].len() < bound,
        ensures
            ops_view(r@) == parse_list_model(strs_view(operands@), bound),
        decreases bound, 0int, 0int,
    {
        let ghost full = strs_view(operands@);
        let mut r: Vec<Operand> = Vec::new();
        proof {
            assert(full.skip(0) =~= full);
            assert(ops_view(r@) + parse_list_model(full, bound) =~= parse_list_model(
                full,
                bound,
            ));
        }
        let mut k: usize = 0;
        while k < operands.len()
            invariant
                k <= operands@.len(),
                parse_list_model(full, bound) == ops_view(r@) + parse_list_model(
                    full.skip(k as int),
                    bound,
                ),
            decreases operands@.len() - k,
        {
            let cs = chars_of(operands[k].as_str());
            proof {
                assert(full[k as int] == operands@[k as int]@);
                assert(full.skip(k as int)[0] == full[k as int]);
            }
            if contains_char_x(&cs, ';') {
                proof {
                    assert(parse_list_model(full.skip(k as int), bound) =~= Seq::<
                        OperandModel,
                    >::empty());
                    assert(ops_view(r@) + Seq::<OperandModel>::empty() =~= ops_view(r@));
                }
                return r;
            }
            proof {
                assert(full[k as int].len() < bound);
            }
            let op = self.parse_operand(&operands[k]);
            proof {
                lemma_ops_view_push(r@, op);
                assert(full.skip(k as int).drop_first() =~= full.skip(k as int + 1));
            }
            r.push(op);
            k = k + 1;
        }
        proof {
            assert(full.skip(full.len() as int) =~= Seq::<Seq<char>>::empty());
            assert(parse_list_model(Seq::<Seq<char>>::empty(), bound) =~= Seq::<
                OperandModel,
            >::empty());
            assert(ops_view(r@) + Seq::<OperandModel>::empty() =~= ops_view(r@));
        }
        r
    }

    /// Builds the addressing-mode tree of one operand token.
    pub fn parse_operand(&self, operand: &String) -> (r: Operand)
        ensures
            r@ == parse_operand_model(operand@),
        decreases operand@.len(), 1int, 0int,
    {
        let v = chars_of(operand.as_str());
        let k = operand_kind_vec(&v);
        match k {
            OperandKind::Immediate => Operand::Immediate(operand.clone()),
            OperandKind::Register => match register_type_of(operand) {
                Ok(t) => Operand::Register(t, operand.clone()),
                Err(_) => Operand::Other(operand.clone()),
            },
            OperandKind::Address => Operand::Address(operand.clone()),
            OperandKind::Label => Operand::Label(operand.clone()),
            OperandKind::PostIndirect => {
                let inner = replace_all_x(
                    &replace_all_x(&v, &cvec1('('), &cvec0()),
                    &cvec2(')', '+'),
                    &cvec0(),
                );
                if inner.len() < v.len() {
                    let s2 = string_of(&inner);
                    let sub = self.parse_operand(&s2);
                    Operand::PostIndirect(Box::new(sub))
                } else {
                    Operand::Other(operand.clone())
                }
            },
            OperandKind::PreIndirect => {
                let inner = replace_all_x(
                    &replace_all_x(&v, &cvec2('-', '('), &cvec0()),
                    &cvec1(')'),
                    &cvec0(),
                );
                if inner.len() < v.len() {
                    let s2 = string_of(&inner);
                    let sub = self.parse_operand(&s2);
                    Operand::PreIndirect(Box::new(sub))
                } else {
                    Operand::Other(operand.clone())
                }
            },
            OperandKind::Indirect | OperandKind::IndirectDisplacement => {
                let cnt = count_char_x(&v, '(');
                let found = find_char_x(&v, '(');
                match found {
                    Some(p) if cnt == 1 => {
                        proof {
                            crate::text::lemma_find_char(v@, '(');
                        }
                        let before = subvec(&v, 0, p);
                        let offv = trim_vec(&before);
                        let offset = string_of(&offv);
                        let inner0 = subvec(&v, p + 1, v.len());
                        let inner = if inner0.len() > 0 && inner0[inner0.len() - 1] == ')' {
                            subvec(&inner0, 0, inner0.len() - 1)
                        } else {
                            subvec(&inner0, 0, inner0.len())
                        };
                        proof {
                            assert(v@.take(p as int) =~= v@.subrange(0, p as int));
                            assert(v@.skip(p + 1) =~= v@.subrange(p + 1, v@.len() as int));
                            assert(inner0@.drop_last() =~= inner0@.subrange(
                                0,
                                inner0@.len() - 1,
                            ));
                            assert(inner0@.subrange(0, inner0@.len() as int) =~= inner0@);
                            assert(inner@ == strip_trailing_paren(v@.skip(p + 1)));
                        }
                        let inner_s = string_of(&inner);
                        let toks = (&self.regex).split_into_operand_args(inner_s.as_str());
                        proof {
                            lemma_split_operand_args_bound(inner@);
                            assert forall|j: int|
                                0 <= j < toks@.len() implies #[trigger] strs_view(toks@)[j].len()
                                < v@.len() as int by {
                                assert(strs_view(toks@)[j] == split_operand_args_model(inner@)[j]);
                                assert(split_operand_args_model(inner@)[j].len() <= inner@.len());
                            }
                        }
                        let mut ops = self.parse_list_x(&toks, Ghost(v@.len() as int));
                        if ops.len() == 1 {
                            let ghost ops_snap = ops@;
                            let op = ops.pop().unwrap();
                            proof {
                                assert(op == ops_snap.last());
                                assert(ops_view(ops_snap)[0] == ops_snap[0]@);
                            }
                            Operand::Indirect { offset: offset, operand: Box::new(op) }
                        } else if ops.len() >= 2 {
                            Operand::IndirectWithDisplacement { offset: offset, operands: ops }
                        } else {
                            Operand::Other(operand.clone())
                        }
                    },
                    _ => Operand::Other(operand.clone()),
                }
            },
        }
    }
}

} // verus!
