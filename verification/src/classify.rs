//! The line classifier: one trimmed, non-empty Flow source line is sorted
//! into exactly one statement form by a fixed priority order of pattern
//! checks, first match wins.  Unrecognized lines fall through to a bare
//! expression statement, so classification is total.

use vstd::prelude::*;

use crate::text::{
    ends_with, find_sub, lemma_find_sub_props, spec_ends_with, spec_find_sub, spec_starts_with,
    spec_trim, spec_trim_start, starts_with, str_eq, trim, trim_start,
};

verus! {

/// A classified Flow statement, at the specification level.  Sub-texts are
/// carried exactly as the classifier cuts them out of the line.
pub enum StmtSpec {
    Comment { text: Seq<char> },
    EndBlock,
    Define { name: Seq<char>, params: Seq<Seq<char>> },
    ReturnStmt { value: Seq<char> },
    Say { value: Seq<char> },
    LetBinding { name: Seq<char>, value: Seq<char> },
    LetDropped,
    IfThen { cond: Seq<char> },
    ElseBranch,
    LoopTimes { count: Seq<char> },
    WhileDo { cond: Seq<char> },
    Grow { var: Seq<char> },
    BreakStmt,
    ContinueStmt,
    ExprStmt { value: Seq<char> },
}

/// A classified Flow statement.
pub enum Stmt {
    Comment { text: String },
    EndBlock,
    Define { name: String, params: Vec<String> },
    ReturnStmt { value: String },
    Say { value: String },
    LetBinding { name: String, value: String },
    LetDropped,
    IfThen { cond: String },
    ElseBranch,
    LoopTimes { count: String },
    WhileDo { cond: String },
    Grow { var: String },
    BreakStmt,
    ContinueStmt,
    ExprStmt { value: String },
}

impl View for Stmt {
    type V = StmtSpec;

    open spec fn view(&self) -> StmtSpec {
        match self {
            Stmt::Comment { text } => StmtSpec::Comment { text: text@ },
            Stmt::EndBlock => StmtSpec::EndBlock,
            Stmt::Define { name, params } => StmtSpec::Define {
                name: name@,
                params: params.deep_view(),
            },
            Stmt::ReturnStmt { value } => StmtSpec::ReturnStmt { value: value@ },
            Stmt::Say { value } => StmtSpec::Say { value: value@ },
            Stmt::LetBinding { name, value } => StmtSpec::LetBinding {
                name: name@,
                value: value@,
            },
            Stmt::LetDropped => StmtSpec::LetDropped,
            Stmt::IfThen { cond } => StmtSpec::IfThen { cond: cond@ },
            Stmt::ElseBranch => StmtSpec::ElseBranch,
            Stmt::LoopTimes { count } => StmtSpec::LoopTimes { count: count@ },
            Stmt::WhileDo { cond } => StmtSpec::WhileDo { cond: cond@ },
            Stmt::Grow { var } => StmtSpec::Grow { var: var@ },
            Stmt::BreakStmt => StmtSpec::BreakStmt,
            Stmt::ContinueStmt => StmtSpec::ContinueStmt,
            Stmt::ExprStmt { value } => StmtSpec::ExprStmt { value: value@ },
        }
    }
}

/// The comma-separated pieces of a parameter list, each trimmed, empty
/// entries discarded.
pub open spec fn spec_params_list(s: Seq<char>) -> Seq<Seq<char>>
    decreases s.len(),
{
    match spec_find_sub(s, ","@) {
        None => {
            let t = spec_trim(s);
            if t.len() >= 1 {
                seq![t]
            } else {
                Seq::empty()
            }
        },
        Some(i) => {
            proof {
                reveal_strlit(",");
                lemma_find_sub_props(s, ","@);
            }
            let t = spec_trim(s.take(i));
            (if t.len() >= 1 {
                seq![t]
            } else {
                Seq::<Seq<char>>::empty()
            }) + spec_params_list(s.skip(i + 1))
        },
    }
}

/// The name part of a `define` payload: the trimmed text before the first
/// `(`, or the whole trimmed payload if there is none.
pub open spec fn spec_sig_name(s: Seq<char>) -> Seq<char> {
    let t = spec_trim(s);
    match spec_find_sub(t, "("@) {
        None => t,
        Some(p) => spec_trim(t.take(p)),
    }
}

/// Where the parameter list ends: the first `)` after the first `(`, or the
/// end of the payload if there is none.
pub open spec fn spec_close_paren(t: Seq<char>, p: int) -> int {
    match spec_find_sub(t.skip(p + 1), ")"@) {
        None => t.len() as int,
        Some(k) => p + 1 + k,
    }
}

/// The parameter names of a `define` payload.
pub open spec fn spec_sig_params(s: Seq<char>) -> Seq<Seq<char>> {
    let t = spec_trim(s);
    match spec_find_sub(t, "("@) {
        None => Seq::empty(),
        Some(p) => spec_params_list(t.subrange(p + 1, spec_close_paren(t, p))),
    }
}

fn split_params(s: &str) -> (r: Vec<String>)
    ensures
        r.deep_view() == spec_params_list(s@),
{
    let mut r: Vec<String> = Vec::new();
    let mut rest: &str = s;
    proof {
        assert(r.deep_view() + spec_params_list(s@) =~= spec_params_list(s@));
    }
    loop
        invariant
            spec_params_list(s@) == r.deep_view() + spec_params_list(rest@),
        decreases rest@.len(),
    {
        proof {
            reveal_strlit(",");
        }
        let ghost r0 = r.deep_view();
        match find_sub(rest, ",") {
            None => {
                let t = trim(rest);
                if t.unicode_len() >= 1 {
                    r.push(String::from_str(t));
                    proof {
                        assert(r.deep_view() =~= r0 + seq![t@]);
                    }
                } else {
                    proof {
                        assert(r0 + Seq::<Seq<char>>::empty() =~= r0);
                    }
                }
                return r;
            },
            Some(i) => {
                proof {
                    lemma_find_sub_props(rest@, ","@);
                }
                let n = rest.unicode_len();
                let piece = trim(rest.substring_char(0, i));
                proof {
                    assert(rest@.subrange(0, i as int) =~= rest@.take(i as int));
                }
                let ghost head = spec_params_list(rest@).subrange(
                    0,
                    spec_params_list(rest@).len() - spec_params_list(rest@.skip(i + 1)).len(),
                );
                if piece.unicode_len() >= 1 {
                    r.push(String::from_str(piece));
                    proof {
                        assert(r.deep_view() =~= r0 + seq![piece@]);
                        assert((r0 + seq![piece@]) + spec_params_list(rest@.skip(i + 1)) =~= r0 + (
                        seq![piece@] + spec_params_list(rest@.skip(i + 1))));
                    }
                } else {
                    proof {
                        assert(Seq::<Seq<char>>::empty() + spec_params_list(rest@.skip(i + 1))
                            =~= spec_params_list(rest@.skip(i + 1)));
                    }
                }
                let new_rest = rest.substring_char(i + 1, n);
                proof {
                    assert(new_rest@ =~= rest@.skip(i as int + 1));
                }
                rest = new_rest;
            },
        }
    }
}

/// Splits a `define` payload into the function name and its parameter list:
/// the name is the trimmed text before the first `(`; the parameters are the
/// comma-separated, trimmed, non-empty pieces between the first `(` and the
/// first `)` after it (or the end of the payload if `)` never comes).
pub fn parse_func_signature(s: &str) -> (r: (String, Vec<String>))
    ensures
        r.0@ == spec_sig_name(s@),
        r.1.deep_view() == spec_sig_params(s@),
{
    let t = trim(s);
    let n = t.unicode_len();
    proof {
        reveal_strlit("(");
        reveal_strlit(")");
    }
    match find_sub(t, "(") {
        None => {
            let r: Vec<String> = Vec::new();
            proof {
                assert(r.deep_view() =~= Seq::<Seq<char>>::empty());
            }
            (String::from_str(t), r)
        },
        Some(p) => {
            proof {
                lemma_find_sub_props(t@, "("@);
            }
            let name = trim(t.substring_char(0, p));
            proof {
                assert(t@.subrange(0, p as int) =~= t@.take(p as int));
            }
            let after = t.substring_char(p + 1, n);
            proof {
                assert(after@ =~= t@.skip(p as int + 1));
                lemma_find_sub_props(after@, ")"@);
            }
            let close: usize = match find_sub(after, ")") {
                None => n,
                Some(k) => p + 1 + k,
            };
            let inner = t.substring_char(p + 1, close);
            let params = split_params(inner);
            (String::from_str(name), params)
        },
    }
}

/// The rendered C++ parameter list: each name declared `auto`, joined by
/// commas.
pub open spec fn spec_render_params(ps: Seq<Seq<char>>) -> Seq<char>
    decreases ps.len(),
{
    if ps.len() == 0 {
        Seq::empty()
    } else if ps.len() == 1 {
        "auto "@ + ps.last()
    } else {
        spec_render_params(ps.drop_last()) + ", auto "@ + ps.last()
    }
}

pub fn render_params(ps: &Vec<String>) -> (r: String)
    ensures
        r@ == spec_render_params(ps.deep_view()),
{
    let mut r = String::new();
    let mut i: usize = 0;
    while i < ps.len()
        invariant
            i <= ps.len(),
            r@ == spec_render_params(ps.deep_view().take(i as int)),
        decreases ps.len() - i,
    {
        if i == 0 {
            r.append("auto ");
        } else {
            r.append(", auto ");
        }
        let p: &String = &ps[i];
        r.append(p.as_str());
        proof {
            let dv = ps.deep_view();
            assert(dv.take(i + 1).drop_last() =~= dv.take(i as int));
            assert(dv.take(i + 1).last() == dv[i as int]);
            assert(dv[i as int] == ps@[i as int]@);
            if i == 0 {
                assert(Seq::<char>::empty() + "auto "@ =~= "auto "@);
            }
        }
        i += 1;
    }
    proof {
        assert(ps.deep_view().take(ps.len() as int) =~= ps.deep_view());
    }
    r
}

/// Which statement form a trimmed, non-empty line is, by the fixed priority
/// order of pattern checks.
pub open spec fn spec_classify(l: Seq<char>) -> StmtSpec {
    if spec_starts_with(l, "--"@) {
        StmtSpec::Comment { text: spec_trim_start(l.skip(2)) }
    } else if l == "end"@ {
        StmtSpec::EndBlock
    } else if spec_starts_with(l, "define "@) {
        StmtSpec::Define { name: spec_sig_name(l.skip(7)), params: spec_sig_params(l.skip(7)) }
    } else if spec_starts_with(l, "return "@) {
        StmtSpec::ReturnStmt { value: l.skip(7) }
    } else if spec_starts_with(l, "say "@) {
        StmtSpec::Say { value: l.skip(4) }
    } else if spec_starts_with(l, "let "@) {
        match spec_find_sub(l.skip(4), "="@) {
            None => StmtSpec::LetDropped,
            Some(i) => StmtSpec::LetBinding {
                name: spec_trim(l.skip(4).take(i)),
                value: spec_trim(l.skip(4).skip(i + 1)),
            },
        }
    } else if spec_starts_with(l, "if "@) && spec_ends_with(l, "then"@) {
        StmtSpec::IfThen { cond: spec_trim(l.subrange(3, l.len() - 4)) }
    } else if l == "else"@ {
        StmtSpec::ElseBranch
    } else if spec_starts_with(l, "loop "@) && spec_ends_with(l, "times"@) {
        StmtSpec::LoopTimes { count: spec_trim(l.subrange(5, l.len() - 5)) }
    } else if spec_starts_with(l, "while "@) && spec_ends_with(l, "do"@) {
        StmtSpec::WhileDo { cond: spec_trim(l.subrange(6, l.len() - 2)) }
    } else if spec_starts_with(l, "grow "@) {
        StmtSpec::Grow { var: spec_trim(l.skip(5)) }
    } else if l == "break"@ {
        StmtSpec::BreakStmt
    } else if l == "continue"@ {
        StmtSpec::ContinueStmt
    } else {
        StmtSpec::ExprStmt { value: l }
    }
}

/// Classifies one trimmed, non-empty line.
pub fn classify(l: &str) -> (s: Stmt)
    ensures
        s@ == spec_classify(l@),
{
    let n = l.unicode_len();
    if starts_with(l, "--") {
        proof {
            reveal_strlit("--");
        }
        let text = trim_start(l.substring_char(2, n));
        proof {
            assert(l@.subrange(2, n as int) =~= l@.skip(2));
        }
        return Stmt::Comment { text: String::from_str(text) };
    }
    if str_eq(l, "end") {
        return Stmt::EndBlock;
    }
    if starts_with(l, "define ") {
        proof {
            reveal_strlit("define ");
        }
        let rest = l.substring_char(7, n);
        proof {
            assert(rest@ =~= l@.skip(7));
        }
        let (name, params) = parse_func_signature(rest);
        return Stmt::Define { name, params };
    }
    if starts_with(l, "return ") {
        proof {
            reveal_strlit("return ");
        }
        let rest = l.substring_char(7, n);
        proof {
            assert(rest@ =~= l@.skip(7));
        }
        return Stmt::ReturnStmt { value: String::from_str(rest) };
    }
    if starts_with(l, "say ") {
        proof {
            reveal_strlit("say ");
        }
        let rest = l.substring_char(4, n);
        proof {
            assert(rest@ =~= l@.skip(4));
        }
        return Stmt::Say { value: String::from_str(rest) };
    }
    if starts_with(l, "let ") {
        proof {
            reveal_strlit("let ");
            reveal_strlit("=");
        }
        let rest = l.substring_char(4, n);
        proof {
            assert(rest@ =~= l@.skip(4));
        }
        match find_sub(rest, "=") {
            None => {
                return Stmt::LetDropped;
            },
            Some(i) => {
                proof {
                    lemma_find_sub_props(rest@, "="@);
                }
                let m = rest.unicode_len();
                let name = trim(rest.substring_char(0, i));
                let value = trim(rest.substring_char(i + 1, m));
                proof {
                    assert(rest@.subrange(0, i as int) =~= rest@.take(i as int));
                    assert(rest@.subrange(i as int + 1, m as int) =~= rest@.skip(i as int + 1));
                }
                return Stmt::LetBinding {
                    name: String::from_str(name),
                    value: String::from_str(value),
                };
            },
        }
    }
    if starts_with(l, "if ") && ends_with(l, "then") {
        proof {
            reveal_strlit("if ");
            reveal_strlit("then");
            if n < 7 {
                assert(l@.subrange(0, 3)[2] == l@[2]);
                assert(l@.subrange(n - 4, n as int)[0] == l@[n - 4]);
                if n == 6 {
                    assert(l@[2] == ' ' && l@[2] == 't');
                }
                if n == 5 {
                    assert(l@.subrange(0, 3)[1] == l@[1]);
                    assert(l@[1] == 'f' && l@[1] == 't');
                }
                if n == 4 {
                    assert(l@.subrange(0, 3)[0] == l@[0]);
                    assert(l@[0] == 'i' && l@[0] == 't');
                }
            }
        }
        let cond = trim(l.substring_char(3, n - 4));
        proof {
            assert(l@.subrange(3, n as int - 4) =~= l@.subrange(3, l@.len() - 4));
        }
        return Stmt::IfThen { cond: String::from_str(cond) };
    }
    if str_eq(l, "else") {
        return Stmt::ElseBranch;
    }
    if starts_with(l, "loop ") && ends_with(l, "times") {
        proof {
            reveal_strlit("loop ");
            reveal_strlit("times");
            if n < 10 {
                assert(l@.subrange(n - 5, n as int)[0] == l@[n - 5]);
                assert(forall|k: int| 0 <= k < 5 ==> l@.subrange(0, 5)[k] == l@[k]);
                assert(l@[n - 5] == 't');
            }
        }
        let count = trim(l.substring_char(5, n - 5));
        proof {
            assert(l@.subrange(5, n as int - 5) =~= l@.subrange(5, l@.len() - 5));
        }
        return Stmt::LoopTimes { count: String::from_str(count) };
    }
    if starts_with(l, "while ") && ends_with(l, "do") {
        proof {
            reveal_strlit("while ");
            reveal_strlit("do");
            if n < 8 {
                assert(l@.subrange(n - 2, n as int)[0] == l@[n - 2]);
                assert(forall|k: int| 0 <= k < 6 ==> l@.subrange(0, 6)[k] == l@[k]);
                assert(l@[n - 2] == 'd');
            }
        }
        let cond = trim(l.substring_char(6, n - 2));
        proof {
            assert(l@.subrange(6, n as int - 2) =~= l@.subrange(6, l@.len() - 2));
        }
        return Stmt::WhileDo { cond: String::from_str(cond) };
    }
    if starts_with(l, "grow ") {
        proof {
            reveal_strlit("grow ");
        }
        let var = trim(l.substring_char(5, n));
        proof {
            assert(l@.subrange(5, n as int) =~= l@.skip(5));
        }
        return Stmt::Grow { var: String::from_str(var) };
    }
    if str_eq(l, "break") {
        return Stmt::BreakStmt;
    }
    if str_eq(l, "continue") {
        return Stmt::ContinueStmt;
    }
    Stmt::ExprStmt { value: String::from_str(l) }
}

} // verus!
