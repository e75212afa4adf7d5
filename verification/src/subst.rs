//! Constant-substitution pass: a single forward scan collects the bindings
//! introduced by the `equ` pseudo-directive, then rewrites the code portion
//! of every other line that carries a comment by literal substring
//! replacement. Definition lines and comment-free lines pass through
//! unchanged, and comments are never rewritten.

use vstd::prelude::*;

use crate::ast::strs_view;
use crate::lexer::Lexer;
use crate::text::{
    chars_of, find_char, find_char_x, lemma_find_char, replace_all, string_of, subvec, vcs_view,
    ws_tokens, ws_tokens_x,
};

verus! {

/// The keyword that introduces a constant definition.
pub open spec fn equ_keyword() -> Seq<char> {
    seq!['e', 'q', 'u']
}

/// A definition line: at least three whitespace tokens, the second being the
/// definition keyword.
pub open spec fn is_def_line(l: Seq<char>) -> bool {
    ws_tokens(l).len() >= 3 && ws_tokens(l)[1] == equ_keyword()
}

/// The bindings of a definition line: first token is the name, third token
/// the replacement text.
pub open spec fn def_of(l: Seq<char>) -> (Seq<char>, Seq<char>) {
    (ws_tokens(l)[0], ws_tokens(l)[2])
}

/// All bindings of a line sequence, in line order.
pub open spec fn collect_defs(ls: Seq<Seq<char>>) -> Seq<(Seq<char>, Seq<char>)>
    decreases ls.len(),
{
    if ls.len() == 0 {
        Seq::empty()
    } else {
        collect_defs(ls.drop_last()) + if is_def_line(ls.last()) {
            seq![def_of(ls.last())]
        } else {
            Seq::empty()
        }
    }
}

/// Applies every binding to `code`, in definition order, by literal
/// replacement.
pub open spec fn subst_code(code: Seq<char>, defs: Seq<(Seq<char>, Seq<char>)>) -> Seq<char>
    decreases defs.len(),
{
    if defs.len() == 0 {
        code
    } else {
        subst_code(replace_all(code, defs[0].0, defs[0].1), defs.drop_first())
    }
}

/// Rewrites one line: definition lines and lines without a comment delimiter
/// pass through; otherwise the bindings are applied to the code portion only
/// and the comment is reattached unchanged.
pub open spec fn rewrite_line(l: Seq<char>, defs: Seq<(Seq<char>, Seq<char>)>) -> Seq<char> {
    if is_def_line(l) {
        l
    } else {
        let p = find_char(l, ';');
        if p == -1 {
            l
        } else {
            subst_code(l.take(p), defs) + seq![';'] + l.skip(p + 1)
        }
    }
}

/// The whole pass: bindings are collected from all lines before any line is
/// rewritten.
pub open spec fn apply_equ_model(ls: Seq<Seq<char>>) -> Seq<Seq<char>> {
    ls.map_values(|l: Seq<char>| rewrite_line(l, collect_defs(ls)))
}

/// Pairs of name/replacement views held in two parallel vectors.
pub open spec fn defs_view(ns: Seq<Vec<char>>, rs: Seq<Vec<char>>) -> Seq<(Seq<char>, Seq<char>)>
{
    Seq::new(
        ns.len(),
        |i: int|
            if 0 <= i < ns.len() && ns.len() == rs.len() {
                (ns[i]@, rs[i]@)
            } else {
                (Seq::empty(), Seq::empty())
            },
    )
}

/// Whether `v[i..i + p.len()]` equals `p`.
#[verifier::loop_isolation(false)]
fn matches_at(v: &Vec<char>, i: usize, p: &Vec<char>) -> (r: bool)
    requires
        i + p@.len() <= v@.len(),
    ensures
        r == (v@.subrange(i as int, i + p@.len()) == p@),
{
    let n = v.len();
    let mut k: usize = 0;
    while k < p.len()
        invariant
            k <= p@.len(),
            i + p@.len() <= v@.len(),
            forall|j: int| 0 <= j < k ==> v@[i + j] == p@[j],
        decreases p@.len() - k,
    {
        if v[i + k] != p[k] {
            proof {
                assert(v@.subrange(i as int, i + p@.len())[k as int] == v@[i + k]);
            }
            return false;
        }
        k = k + 1;
    }
    proof {
        assert(v@.subrange(i as int, i + p@.len()) =~= p@);
    }
    true
}

/// Literal, leftmost, non-overlapping replacement of `pat` by `rep` in `v`.
#[verifier::loop_isolation(false)]
pub fn replace_all_x(v: &Vec<char>, pat: &Vec<char>, rep: &Vec<char>) -> (r: Vec<char>)
    ensures
        r@ == replace_all(v@, pat@, rep@),
{
    if pat.len() == 0 {
        return subvec(v, 0, v.len());
    }
    let mut out: Vec<char> = Vec::new();
    proof {
        assert(v@.skip(0) =~= v@);
        assert(out@ + replace_all(v@, pat@, rep@) =~= replace_all(v@, pat@, rep@));
    }
    let mut i: usize = 0;
    while i < v.len()
        invariant
            i <= v@.len(),
            pat@.len() > 0,
            replace_all(v@, pat@, rep@) == out@ + replace_all(v@.skip(i as int), pat@, rep@),
        decreases v@.len() - i,
    {
        let ghost rest = v@.skip(i as int);
        if pat.len() <= v.len() - i && matches_at(v, i, pat) {
            proof {
                assert(rest.take(pat@.len() as int) =~= v@.subrange(i as int, i + pat@.len()));
                assert(rest.skip(pat@.len() as int) =~= v@.skip(i + pat@.len()));
                assert(replace_all(rest, pat@, rep@) == rep@ + replace_all(
                    v@.skip(i + pat@.len()),
                    pat@,
                    rep@,
                ));
            }
            let ghost out_snap = out;
            let mut k: usize = 0;
            while k < rep.len()
                invariant
                    k <= rep@.len(),
                    out@ == out_snap@ + rep@.take(k as int),
                decreases rep@.len() - k,
            {
                out.push(rep[k]);
                k = k + 1;
                proof {
                    assert(rep@.take(k as int) =~= rep@.take(k as int - 1).push(
                        rep@[k as int - 1],
                    ));
                }
            }
            proof {
                assert(rep@.take(rep@.len() as int) =~= rep@);
                assert(out@ + replace_all(v@.skip(i + pat@.len()), pat@, rep@) =~= replace_all(
                    v@,
                    pat@,
                    rep@,
                ));
            }
            i = i + pat.len();
        } else {
            proof {
                assert(rest.len() > 0);
                assert(rest[0] == v@[i as int]);
                if rest.len() >= pat@.len() {
                    assert(rest.take(pat@.len() as int) =~= v@.subrange(
                        i as int,
                        i + pat@.len(),
                    ));
                    assert(rest.take(pat@.len() as int) != pat@);
                }
                assert(rest.drop_first() =~= v@.skip(i as int + 1));
                assert(replace_all(rest, pat@, rep@) == seq![v@[i as int]] + replace_all(
                    v@.skip(i as int + 1),
                    pat@,
                    rep@,
                ));
            }
            out.push(v[i]);
            i = i + 1;
            proof {
                assert(out@ + replace_all(v@.skip(i as int), pat@, rep@) =~= replace_all(
                    v@,
                    pat@,
                    rep@,
                ));
            }
        }
    }
    proof {
        assert(v@.skip(v@.len() as int) =~= Seq::<char>::empty());
        assert(replace_all(Seq::<char>::empty(), pat@, rep@) == Seq::<char>::empty());
        assert(out@ + Seq::<char>::empty() =~= out@);
    }
    out
}

pub proof fn lemma_defs_view_push(ns: Seq<Vec<char>>, rs: Seq<Vec<char>>, n: Vec<char>, r: Vec<char>)
    requires
        ns.len() == rs.len(),
    ensures
        defs_view(ns.push(n), rs.push(r)) == defs_view(ns, rs).push((n@, r@)),
{
    assert(defs_view(ns.push(n), rs.push(r)) =~= defs_view(ns, rs).push((n@, r@)));
}

/// Whether `v` is the definition keyword.
fn is_equ_vec(v: &Vec<char>) -> (r: bool)
    ensures
        r == (v@ == equ_keyword()),
{
    let e = v.len() == 3 && v[0] == 'e' && v[1] == 'q' && v[2] == 'u';
    proof {
        if e {
            assert(v@ =~= equ_keyword());
        }
    }
    e
}

impl Lexer {
    /// The constant-substitution pass: collects every `equ` binding in one
    /// full scan, then rewrites the code portion of every non-definition
    /// line that carries a comment. Definition lines, comment-free lines and
    /// comment text pass through unchanged.
    #[verifier::loop_isolation(false)]
    #[verifier::rlimit(80)]
    pub fn apply_equ(&self, lines: Vec<String>) -> (r: Vec<String>)
        ensures
            strs_view(r@) == apply_equ_model(strs_view(lines@)),
    {
        let ghost ls = strs_view(lines@);
        let mut names: Vec<Vec<char>> = Vec::new();
        let mut reps: Vec<Vec<char>> = Vec::new();
        let mut flags: Vec<bool> = Vec::new();
        proof {
            assert(ls.take(0) =~= Seq::<Seq<char>>::empty());
            assert(defs_view(names@, reps@) =~= collect_defs(ls.take(0)));
        }
        let mut i: usize = 0;
        while i < lines.len()
            invariant
                i <= lines@.len(),
                flags@.len() == i,
                names@.len() == reps@.len(),
                defs_view(names@, reps@) == collect_defs(ls.take(i as int)),
                forall|j: int| 0 <= j < i ==> flags@[j] == is_def_line(ls[j]),
            decreases lines@.len() - i,
        {
            let v = chars_of(lines[i].as_str());
            proof {
                assert(ls[i as int] == lines@[i as int]@);
            }
            let toks = ws_tokens_x(&v);
            let isdef = toks.len() >= 3 && is_equ_vec(&toks[1]);
            proof {
                if toks.len() >= 3 {
                    assert(vcs_view(toks@)[1] == toks@[1]@);
                }
                assert(vcs_view(toks@).len() == toks@.len());
                assert(isdef == is_def_line(ls[i as int]));
                assert(ls.take(i + 1).drop_last() =~= ls.take(i as int));
                assert(ls.take(i + 1).last() == ls[i as int]);
            }
            if isdef {
                let nme = subvec(&toks[0], 0, toks[0].len());
                let rep = subvec(&toks[2], 0, toks[2].len());
                proof {
                    assert(vcs_view(toks@)[0] == toks@[0]@);
                    assert(vcs_view(toks@)[2] == toks@[2]@);
                    assert(nme@ =~= toks@[0]@);
                    assert(rep@ =~= toks@[2]@);
                    lemma_defs_view_push(names@, reps@, nme, rep);
                    assert(collect_defs(ls.take(i + 1)) =~= collect_defs(ls.take(i as int)).push(
                        def_of(ls[i as int]),
                    ));
                }
                names.push(nme);
                reps.push(rep);
                flags.push(true);
            } else {
                proof {
                    assert(collect_defs(ls.take(i + 1)) =~= collect_defs(ls.take(i as int)));
                }
                flags.push(false);
            }
            i = i + 1;
        }
        proof {
            assert(ls.take(ls.len() as int) =~= ls);
        }
        let ghost defs = collect_defs(ls);
        let mut out: Vec<String> = Vec::new();
        let mut i2: usize = 0;
        while i2 < lines.len()
            invariant
                i2 <= lines@.len(),
                out@.len() == i2,
                forall|j: int| 0 <= j < i2 ==> out@[j]@ == rewrite_line(ls[j], defs),
            decreases lines@.len() - i2,
        {
            proof {
                assert(ls[i2 as int] == lines@[i2 as int]@);
            }
            if flags[i2] {
                out.push(lines[i2].clone());
            } else {
                let v = chars_of(lines[i2].as_str());
                match find_char_x(&v, ';') {
                    None => {
                        out.push(lines[i2].clone());
                    },
                    Some(p) => {
                        let n = v.len();
                        proof {
                            lemma_find_char(v@, ';');
                        }
                        let mut code = subvec(&v, 0, p);
                        proof {
                            assert(code@ =~= v@.take(p as int));
                            assert(defs.skip(0) =~= defs);
                        }
                        let ghost orig = v@.take(p as int);
                        let mut k: usize = 0;
                        while k < names.len()
                            invariant
                                k <= names@.len(),
                                subst_code(orig, defs) == subst_code(code@, defs.skip(k as int)),
                            decreases names@.len() - k,
                        {
                            proof {
                                assert(defs[k as int] == (names@[k as int]@, reps@[k as int]@));
                                assert(defs.skip(k as int)[0] == defs[k as int]);
                                assert(defs.skip(k as int).drop_first() =~= defs.skip(
                                    k as int + 1,
                                ));
                            }
                            code = replace_all_x(&code, &names[k], &reps[k]);
                            k = k + 1;
                        }
                        proof {
                            assert(defs.skip(defs.len() as int) =~= Seq::<
                                (Seq<char>, Seq<char>),
                            >::empty());
                            assert(subst_code(code@, defs.skip(names@.len() as int)) == code@);
                        }
                        let mut res_v = code;
                        res_v.push(';');
                        let rest = subvec(&v, p + 1, n);
                        let ghost res_snap = res_v@;
                        let mut m: usize = 0;
                        while m < rest.len()
                            invariant
                                m <= rest@.len(),
                                res_v@ == res_snap + rest@.take(m as int),
                            decreases rest@.len() - m,
                        {
                            res_v.push(rest[m]);
                            m = m + 1;
                            proof {
                                assert(rest@.take(m as int) =~= rest@.take(m as int - 1).push(
                                    rest@[m as int - 1],
                                ));
                            }
                        }
                        proof {
                            assert(rest@.take(rest@.len() as int) =~= rest@);
                            assert(rest@ =~= ls[i2 as int].skip(p + 1));
                            assert(res_v@ =~= subst_code(ls[i2 as int].take(p as int), defs)
                                + seq![';'] + ls[i2 as int].skip(p + 1));
                        }
                        out.push(string_of(&res_v));
                    },
                }
            }
            i2 = i2 + 1;
        }
        proof {
            assert(strs_view(out@) =~= apply_equ_model(ls));
        }
        out
    }
}

} // verus!
