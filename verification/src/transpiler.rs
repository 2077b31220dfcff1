//! The scope tracker, emitter and assembler: consumes Flow source one line at
//! a time, renders each classified statement into an indented C++ line in the
//! active output buffer (the function buffer while inside a `define`, the
//! main buffer otherwise), and finally assembles the header comment, the
//! include lines, the function buffer and the main block wrapped in
//! `int main()` into one translation unit.

use vstd::prelude::*;

use crate::classify::{classify, render_params, spec_classify, spec_render_params, Stmt, StmtSpec};
use crate::expr::{spec_translate_expr, translate_expr, IncludeSet};
use crate::text::{find_sub, lemma_find_sub_props, lemma_trim_len, spec_find_sub, spec_trim, trim};

verus! {

/// The translation state: indent level, mode flag, the two output buffers
/// (each a flat text where every emitted line ends in a newline), and the
/// include flags.
pub struct TState {
    pub indent: nat,
    pub in_function: bool,
    pub top: Seq<char>,
    pub body: Seq<char>,
    pub inc_iostream: bool,
    pub inc_string: bool,
    pub inc_cmath: bool,
}

/// Four spaces per indent level.
pub open spec fn spec_spaces(n: nat) -> Seq<char>
    decreases n,
{
    if n == 0 {
        Seq::empty()
    } else {
        spec_spaces((n - 1) as nat) + "    "@
    }
}

/// One emitted line: the indent padding, the text, and a newline.
pub open spec fn spec_line(indent: nat, text: Seq<char>) -> Seq<char> {
    spec_spaces(indent) + text + "\n"@
}

/// Appends one line, at the current indent, to the active buffer.
pub open spec fn spec_push(st: TState, text: Seq<char>) -> TState {
    if st.in_function {
        TState { top: st.top + spec_line(st.indent, text), ..st }
    } else {
        TState { body: st.body + spec_line(st.indent, text), ..st }
    }
}

/// Merges the header needs of one translated expression into the state.
pub open spec fn spec_include(st: TState, e: (Seq<char>, bool, bool)) -> TState {
    TState { inc_string: st.inc_string || e.1, inc_cmath: st.inc_cmath || e.2, ..st }
}

/// How one classified statement is emitted: which text is rendered, how the
/// indent moves, and when the mode flag flips.
pub open spec fn spec_emit(st: TState, s: StmtSpec) -> TState {
    match s {
        StmtSpec::Comment { text } => spec_push(st, "// "@ + text),
        StmtSpec::EndBlock => {
            let ind = if st.indent > 0 {
                (st.indent - 1) as nat
            } else {
                0nat
            };
            let st1 = spec_push(TState { indent: ind, ..st }, "}"@);
            if st.in_function && ind == 0 {
                TState { in_function: false, top: st1.top + "\n"@, ..st1 }
            } else {
                st1
            }
        },
        StmtSpec::Define { name, params } => {
            let header = "auto "@ + name + "("@ + spec_render_params(params) + ") {"@;
            TState { in_function: true, indent: 1, top: st.top + spec_line(0, header), ..st }
        },
        StmtSpec::ReturnStmt { value } => {
            let e = spec_translate_expr(value);
            spec_push(spec_include(st, e), "return "@ + e.0 + ";"@)
        },
        StmtSpec::Say { value } => {
            let e = spec_translate_expr(value);
            let st1 = TState { inc_iostream: true, ..spec_include(st, e) };
            spec_push(st1, "std::cout << "@ + e.0 + " << std::endl;"@)
        },
        StmtSpec::LetBinding { name, value } => {
            let e = spec_translate_expr(value);
            spec_push(spec_include(st, e), "auto "@ + name + " = "@ + e.0 + ";"@)
        },
        StmtSpec::LetDropped => st,
        StmtSpec::IfThen { cond } => {
            let e = spec_translate_expr(cond);
            let st1 = spec_push(spec_include(st, e), "if ("@ + e.0 + ") {"@);
            TState { indent: st1.indent + 1, ..st1 }
        },
        StmtSpec::ElseBranch => {
            let ind = if st.indent > 0 {
                (st.indent - 1) as nat
            } else {
                0nat
            };
            let st1 = spec_push(TState { indent: ind, ..st }, "} else {"@);
            TState { indent: ind + 1, ..st1 }
        },
        StmtSpec::LoopTimes { count } => {
            let e = spec_translate_expr(count);
            let st1 = spec_push(
                spec_include(st, e),
                "for (int _i = 0; _i < "@ + e.0 + "; _i++) {"@,
            );
            TState { indent: st1.indent + 1, ..st1 }
        },
        StmtSpec::WhileDo { cond } => {
            let e = spec_translate_expr(cond);
            let st1 = spec_push(spec_include(st, e), "while ("@ + e.0 + ") {"@);
            TState { indent: st1.indent + 1, ..st1 }
        },
        StmtSpec::Grow { var } => spec_push(st, var + " *= 1.618033988749895;"@),
        StmtSpec::BreakStmt => spec_push(st, "break;"@),
        StmtSpec::ContinueStmt => spec_push(st, "continue;"@),
        StmtSpec::ExprStmt { value } => {
            let e = spec_translate_expr(value);
            spec_push(spec_include(st, e), e.0 + ";"@)
        },
    }
}

/// The effect of one raw source line: trim it, skip it when empty, otherwise
/// classify and emit it.
pub open spec fn spec_step(st: TState, raw: Seq<char>) -> TState {
    let t = spec_trim(raw);
    if t.len() == 0 {
        st
    } else {
        spec_emit(st, spec_classify(t))
    }
}

/// Folds `spec_step` over a sequence of lines.
pub open spec fn spec_run(st: TState, lines: Seq<Seq<char>>) -> TState
    decreases lines.len(),
{
    if lines.len() == 0 {
        st
    } else {
        spec_run(spec_step(st, lines[0]), lines.skip(1))
    }
}

/// The input split at every newline character.
pub open spec fn spec_lines(s: Seq<char>) -> Seq<Seq<char>>
    decreases s.len(),
{
    match spec_find_sub(s, "\n"@) {
        None => seq![s],
        Some(i) => {
            proof {
                reveal_strlit("\n");
                lemma_find_sub_props(s, "\n"@);
            }
            seq![s.take(i)] + spec_lines(s.skip(i + 1))
        },
    }
}

/// The state every translation starts from: main mode, indent one, empty
/// buffers, no includes.
pub open spec fn spec_init() -> TState {
    TState {
        indent: 1,
        in_function: false,
        top: Seq::empty(),
        body: Seq::empty(),
        inc_iostream: false,
        inc_string: false,
        inc_cmath: false,
    }
}

/// The assembled translation unit: header comment, include lines in canonical
/// order, a blank line, the function buffer, and the main buffer wrapped in a
/// synthesized `int main()` with a default success return.
pub open spec fn spec_assemble(st: TState) -> Seq<char> {
    let a = "// Generated by flowc — the Flow compiler\n"@ + (if st.inc_iostream {
        "#include <iostream>\n"@
    } else {
        Seq::<char>::empty()
    });
    let b = a + (if st.inc_string {
        "#include <string>\n"@
    } else {
        Seq::<char>::empty()
    });
    let c = b + (if st.inc_cmath {
        "#include <cmath>\n"@
    } else {
        Seq::<char>::empty()
    });
    c + "\n"@ + st.top + "int main() {\n"@ + st.body + "    return 0;\n"@ + "}\n"@
}

/// The whole translation, as one function of the input text.
pub open spec fn spec_transpile(s: Seq<char>) -> Seq<char> {
    spec_assemble(spec_run(spec_init(), spec_lines(s)))
}

/// The executable translation state.
pub struct Translator {
    pub indent: usize,
    pub in_function: bool,
    pub top: String,
    pub body: String,
    pub includes: IncludeSet,
}

impl View for Translator {
    type V = TState;

    open spec fn view(&self) -> TState {
        TState {
            indent: self.indent as nat,
            in_function: self.in_function,
            top: self.top@,
            body: self.body@,
            inc_iostream: self.includes.iostream,
            inc_string: self.includes.string,
            inc_cmath: self.includes.cmath,
        }
    }
}

/// Appends `text` to `buf` as one line, indented by four spaces per level.
pub fn push_to(buf: &mut String, indent: usize, text: &str)
    ensures
        final(buf)@ == old(buf)@ + spec_line(indent as nat, text@),
{
    let mut j: usize = 0;
    proof {
        assert(buf@ + spec_spaces(0) =~= buf@);
    }
    while j < indent
        invariant
            j <= indent,
            buf@ == old(buf)@ + spec_spaces(j as nat),
        decreases indent - j,
    {
        buf.append("    ");
        proof {
            assert((old(buf)@ + spec_spaces(j as nat)) + "    "@ =~= old(buf)@ + spec_spaces(
                (j + 1) as nat,
            ));
        }
        j += 1;
    }
    buf.append(text);
    buf.append("\n");
    proof {
        assert(((old(buf)@ + spec_spaces(indent as nat)) + text@) + "\n"@ =~= old(buf)@
            + spec_line(indent as nat, text@));
    }
}

impl Translator {
    /// Appends one line to the buffer the current mode selects.
    fn push_active(&mut self, text: &str)
        ensures
            final(self)@ == spec_push(old(self)@, text@),
    {
        let ind = self.indent;
        if self.in_function {
            push_to(&mut self.top, ind, text);
        } else {
            push_to(&mut self.body, ind, text);
        }
    }

    /// Processes one raw source line.
    fn process_line(&mut self, raw: &str)
        requires
            old(self)@.indent < usize::MAX,
        ensures
            final(self)@ == spec_step(old(self)@, raw@),
    {
        let line = trim(raw);
        if line.unicode_len() == 0 {
            return ;
        }
        let stmt = classify(line);
        match stmt {
            Stmt::Comment { text } => {
                let mut out = String::from_str("// ");
                out.append(text.as_str());
                self.push_active(out.as_str());
            },
            Stmt::EndBlock => {
                let prev_in_fn = self.in_function;
                if self.indent > 0 {
                    self.indent = self.indent - 1;
                }
                self.push_active("}");
                if prev_in_fn && self.indent == 0 {
                    self.in_function = false;
                    self.top.append("\n");
                }
            },
            Stmt::Define { name, params } => {
                self.in_function = true;
                let rendered = render_params(&params);
                let mut header = String::from_str("auto ");
                header.append(name.as_str());
                header.append("(");
                header.append(rendered.as_str());
                header.append(") {");
                push_to(&mut self.top, 0, header.as_str());
                self.indent = 1;
            },
            Stmt::ReturnStmt { value } => {
                let e = translate_expr(value.as_str(), &mut self.includes);
                let mut out = String::from_str("return ");
                out.append(e.as_str());
                out.append(";");
                self.push_active(out.as_str());
            },
            Stmt::Say { value } => {
                self.includes.iostream = true;
                let e = translate_expr(value.as_str(), &mut self.includes);
                let mut out = String::from_str("std::cout << ");
                out.append(e.as_str());
                out.append(" << std::endl;");
                self.push_active(out.as_str());
            },
            Stmt::LetBinding { name, value } => {
                let e = translate_expr(value.as_str(), &mut self.includes);
                let mut out = String::from_str("auto ");
                out.append(name.as_str());
                out.append(" = ");
                out.append(e.as_str());
                out.append(";");
                self.push_active(out.as_str());
            },
            Stmt::LetDropped => {},
            Stmt::IfThen { cond } => {
                let e = translate_expr(cond.as_str(), &mut self.includes);
                let mut out = String::from_str("if (");
                out.append(e.as_str());
                out.append(") {");
                self.push_active(out.as_str());
                self.indent = self.indent + 1;
            },
            Stmt::ElseBranch => {
                if self.indent > 0 {
                    self.indent = self.indent - 1;
                }
                self.push_active("} else {");
                self.indent = self.indent + 1;
            },
            Stmt::LoopTimes { count } => {
                let e = translate_expr(count.as_str(), &mut self.includes);
                let mut out = String::from_str("for (int _i = 0; _i < ");
                out.append(e.as_str());
                out.append("; _i++) {");
                self.push_active(out.as_str());
                self.indent = self.indent + 1;
            },
            Stmt::WhileDo { cond } => {
                let e = translate_expr(cond.as_str(), &mut self.includes);
                let mut out = String::from_str("while (");
                out.append(e.as_str());
                out.append(") {");
                self.push_active(out.as_str());
                self.indent = self.indent + 1;
            },
            Stmt::Grow { var } => {
                let mut out = var;
                out.append(" *= 1.618033988749895;");
                self.push_active(out.as_str());
            },
            Stmt::BreakStmt => {
                self.push_active("break;");
            },
            Stmt::ContinueStmt => {
                self.push_active("continue;");
            },
            Stmt::ExprStmt { value } => {
                let mut out = translate_expr(value.as_str(), &mut self.includes);
                out.append(";");
                self.push_active(out.as_str());
            },
        }
    }
}

/// Assembles the final translation unit from a finished state.
fn assemble(tr: &Translator) -> (r: String)
    ensures
        r@ == spec_assemble(tr@),
{
    let mut r = String::from_str("// Generated by flowc — the Flow compiler\n");
    if tr.includes.iostream {
        r.append("#include <iostream>\n");
    } else {
        proof {
            assert(r@ + Seq::<char>::empty() =~= r@);
        }
    }
    if tr.includes.string {
        r.append("#include <string>\n");
    } else {
        proof {
            assert(r@ + Seq::<char>::empty() =~= r@);
        }
    }
    if tr.includes.cmath {
        r.append("#include <cmath>\n");
    } else {
        proof {
            assert(r@ + Seq::<char>::empty() =~= r@);
        }
    }
    r.append("\n");
    r.append(tr.top.as_str());
    r.append("int main() {\n");
    r.append(tr.body.as_str());
    r.append("    return 0;\n");
    r.append("}\n");
    r
}

/// How much a single line can raise the indent level: by at most one, and
/// only a `define` (which resets it to one) or a block opener of at least
/// four characters ever raises it.
proof fn lemma_step_indent(st: TState, raw: Seq<char>)
    ensures
        spec_step(st, raw).indent <= st.indent + 1,
        spec_step(st, raw).indent > st.indent ==> (spec_step(st, raw).indent == 1 || spec_trim(
            raw,
        ).len() >= 4),
{
    reveal_strlit("else");
    reveal_strlit("then");
    reveal_strlit("times");
    reveal_strlit("while ");
}

/// Translates one Flow program into one complete C++ translation unit.  The
/// translation is total: no input is rejected, nothing fails, and the output
/// is exactly `spec_transpile` of the input.
pub fn transpile(source: &str) -> (r: String)
    ensures
        r@ == spec_transpile(source@),
{
    let mut tr = Translator {
        indent: 1,
        in_function: false,
        top: String::new(),
        body: String::new(),
        includes: IncludeSet::default(),
    };
    let n = source.unicode_len();
    let mut rest: &str = source;
    loop
        invariant
            rest@.len() <= source@.len(),
            source@.len() <= usize::MAX,
            4 * tr@.indent <= 4 + source@.len() - rest@.len(),
            spec_run(tr@, spec_lines(rest@)) == spec_run(spec_init(), spec_lines(source@)),
        decreases rest@.len(),
    {
        proof {
            reveal_strlit("\n");
        }
        let ghost tr0 = tr@;
        let m = rest.unicode_len();
        match find_sub(rest, "\n") {
            None => {
                tr.process_line(rest);
                proof {
                    lemma_step_indent(tr0, rest@);
                    let ls = spec_lines(rest@);
                    assert(ls == seq![rest@]);
                    assert(ls.skip(1) =~= Seq::<Seq<char>>::empty());
                    assert(spec_run(tr0, ls) == spec_run(spec_step(tr0, rest@), ls.skip(1)));
                    assert(tr@ == spec_run(spec_init(), spec_lines(source@)));
                }
                return assemble(&tr);
            },
            Some(i) => {
                proof {
                    lemma_find_sub_props(rest@, "\n"@);
                }
                let line = rest.substring_char(0, i);
                tr.process_line(line);
                let new_rest = rest.substring_char(i + 1, m);
                proof {
                    lemma_step_indent(tr0, line@);
                    lemma_trim_len(line@);
                    assert(line@ =~= rest@.take(i as int));
                    assert(new_rest@ =~= rest@.skip(i as int + 1));
                    let ls = spec_lines(rest@);
                    assert(ls == seq![rest@.take(i as int)] + spec_lines(rest@.skip(i as int + 1)));
                    assert(ls[0] == line@);
                    assert(ls.skip(1) =~= spec_lines(new_rest@));
                    assert(spec_run(tr0, ls) == spec_run(spec_step(tr0, line@), ls.skip(1)));
                }
                rest = new_rest;
            },
        }
    }
}

} // verus!
