//! Laws of the translation, proved once and for all inputs: purity, the
//! behaviour of `end` on an empty scope, the bookkeeping of balanced
//! `define … end` blocks, the include flags appearing if and only if a form
//! that needs them was used, and the silent discard of a nested `define`.

use vstd::prelude::*;

use crate::classify::{spec_classify, spec_render_params, StmtSpec};
use crate::expr::spec_translate_expr;
use crate::text::spec_trim;
use crate::transpiler::{
    spec_init, spec_line, spec_lines, spec_run, spec_step, spec_transpile, TState,
};

verus! {

/// Law: translation is pure.  The output is a function of the input text
/// alone, so repeated translations of the same text are byte-identical.
pub proof fn lemma_transpile_deterministic(s: Seq<char>, r1: Seq<char>, r2: Seq<char>)
    requires
        r1 == spec_transpile(s),
        r2 == spec_transpile(s),
    ensures
        r1 == r2,
{
}

/// Law: an `end` on an already-empty scope is never an error: the indent
/// stays at zero and exactly one closing brace line is emitted at column
/// zero.
pub proof fn lemma_end_on_empty_scope(st: TState)
    requires
        st.indent == 0,
        !st.in_function,
    ensures
        spec_step(st, "end"@) == (TState { body: st.body + spec_line(0, "}"@), ..st }),
        spec_step(st, "end"@).indent == 0,
{
    reveal_strlit("end");
    reveal_strlit("--");
    let l = "end"@;
    assert(spec_trim(l) == l);
    assert(l.subrange(0, 2)[0] == 'e');
    assert(spec_classify(l) is EndBlock);
}

/// Law: a `define` line while a definition is already active does not close
/// the previous one.  It silently discards the unclosed state: mode stays
/// function, indent resets to one, exactly the new header line is appended to
/// the function buffer, and the main buffer is untouched.
pub proof fn lemma_redefine_discards(
    st: TState,
    raw: Seq<char>,
    name: Seq<char>,
    params: Seq<Seq<char>>,
)
    requires
        st.in_function,
        spec_trim(raw).len() > 0,
        spec_classify(spec_trim(raw)) == (StmtSpec::Define { name, params }),
    ensures
        spec_step(st, raw) == (TState {
            in_function: true,
            indent: 1,
            top: st.top + spec_line(
                0,
                "auto "@ + name + "("@ + spec_render_params(params) + ") {"@,
            ),
            ..st
        }),
{
}

/// The indent movement a raw line causes inside a function body: block
/// openers raise it by one, `end` lowers it by one, everything else
/// (including `else`, which closes and reopens) leaves it unchanged.
pub open spec fn spec_raw_delta(raw: Seq<char>) -> int {
    let t = spec_trim(raw);
    if t.len() == 0 {
        0
    } else {
        match spec_classify(t) {
            StmtSpec::IfThen { .. } => 1,
            StmtSpec::LoopTimes { .. } => 1,
            StmtSpec::WhileDo { .. } => 1,
            StmtSpec::EndBlock => -1,
            _ => 0,
        }
    }
}

/// The nesting height after the first `k` lines, relative to the block start.
pub open spec fn spec_height(lines: Seq<Seq<char>>, k: int) -> int
    decreases k,
{
    if k <= 0 {
        0
    } else {
        spec_height(lines, k - 1) + spec_raw_delta(lines[k - 1])
    }
}

/// A well-nested function body: no nested `define`, and the inner blocks
/// never close past the function's own opening brace.
pub open spec fn spec_function_body_ok(lines: Seq<Seq<char>>) -> bool {
    (forall|k: int|
        0 <= k < lines.len() ==> (spec_trim(lines[k]).len() == 0 || !(spec_classify(
            spec_trim(lines[k]),
        ) is Define))) && (forall|k: int| 0 <= k <= lines.len() ==> spec_height(lines, k) >= 0)
}

proof fn lemma_height_skip(lines: Seq<Seq<char>>, k: int)
    requires
        lines.len() >= 1,
        0 <= k <= lines.len() - 1,
    ensures
        spec_height(lines.skip(1), k) == spec_height(lines, k + 1) - spec_raw_delta(lines[0]),
    decreases k,
{
    assert(spec_height(lines, 0) == 0);
    assert(spec_height(lines.skip(1), 0) == 0);
    assert(spec_height(lines, 1) == spec_height(lines, 0) + spec_raw_delta(lines[0]));
    if k > 0 {
        lemma_height_skip(lines, k - 1);
        assert(lines.skip(1)[k - 1] == lines[k]);
        assert(spec_height(lines, k + 1) == spec_height(lines, k) + spec_raw_delta(lines[k]));
        assert(spec_height(lines.skip(1), k) == spec_height(lines.skip(1), k - 1) + spec_raw_delta(
            lines.skip(1)[k - 1],
        ));
    }
}

/// While inside a function definition, lines whose nesting never returns to
/// the function's opening level keep the mode, move the indent by exactly the
/// summed deltas, and leave the main buffer untouched.
proof fn lemma_run_body(st: TState, lines: Seq<Seq<char>>)
    requires
        st.in_function,
        st.indent >= 1,
        forall|k: int|
            0 <= k < lines.len() ==> (spec_trim(lines[k]).len() == 0 || !(spec_classify(
                spec_trim(lines[k]),
            ) is Define)),
        forall|k: int| 0 <= k <= lines.len() ==> st.indent + spec_height(lines, k) >= 1,
    ensures
        spec_run(st, lines).in_function,
        spec_run(st, lines).indent == st.indent + spec_height(lines, lines.len() as int),
        spec_run(st, lines).body == st.body,
    decreases lines.len(),
{
    if lines.len() == 0 {
    } else {
        let first = lines[0];
        let st1 = spec_step(st, first);
        assert(spec_height(lines, 0) == 0);
        assert(spec_height(lines, 1) == spec_height(lines, 0) + spec_raw_delta(first));
        assert(spec_height(lines, 1) == spec_raw_delta(first));
        assert(st.indent + spec_height(lines, 1) >= 1);
        assert(st1.in_function);
        assert(st1.indent == st.indent + spec_raw_delta(first));
        assert(st1.body == st.body);
        let rest = lines.skip(1);
        assert forall|k: int| 0 <= k < rest.len() implies (spec_trim(rest[k]).len() == 0 || !(
        spec_classify(spec_trim(rest[k])) is Define)) by {
            assert(rest[k] == lines[k + 1]);
        }
        assert forall|k: int| 0 <= k <= rest.len() implies st1.indent + spec_height(rest, k)
            >= 1 by {
            lemma_height_skip(lines, k);
            assert(st.indent + spec_height(lines, k + 1) >= 1);
        }
        lemma_run_body(st1, rest);
        lemma_height_skip(lines, lines.len() - 1);
    }
}

/// Law: for any balanced `define … end` block — a `define` line, a
/// well-nested body, and the matching `end` — the function buffer's block is
/// closed at indent zero, the mode returns to main, and the main buffer is
/// exactly what it was: translation never leaks function lines into `main`.
pub proof fn lemma_balanced_define_closes(
    st: TState,
    def_line: Seq<char>,
    body_lines: Seq<Seq<char>>,
    end_line: Seq<char>,
)
    requires
        spec_trim(def_line).len() > 0,
        spec_classify(spec_trim(def_line)) is Define,
        spec_trim(end_line) == "end"@,
        spec_function_body_ok(body_lines),
        spec_height(body_lines, body_lines.len() as int) == 0,
    ensures
        !spec_run(st, seq![def_line] + body_lines + seq![end_line]).in_function,
        spec_run(st, seq![def_line] + body_lines + seq![end_line]).indent == 0,
        spec_run(st, seq![def_line] + body_lines + seq![end_line]).body == st.body,
{
    let all = seq![def_line] + body_lines + seq![end_line];
    let st1 = spec_step(st, def_line);
    assert(st1.in_function && st1.indent == 1 && st1.body == st.body);
    assert forall|k: int| 0 <= k <= body_lines.len() implies st1.indent + spec_height(
        body_lines,
        k,
    ) >= 1 by {
        assert(spec_height(body_lines, k) >= 0);
    }
    lemma_run_body(st1, body_lines);
    let st2 = spec_run(st1, body_lines);
    assert(st2.in_function && st2.indent == 1 && st2.body == st.body);
    reveal_strlit("end");
    reveal_strlit("--");
    let l = "end"@;
    assert(l.subrange(0, 2)[0] == 'e');
    assert(spec_classify(l) is EndBlock);
    let st3 = spec_step(st2, end_line);
    assert(!st3.in_function && st3.indent == 0 && st3.body == st.body);
    lemma_run_concat(st, seq![def_line], body_lines);
    lemma_run_concat(st, seq![def_line] + body_lines, seq![end_line]);
    assert((seq![def_line]).skip(1) =~= Seq::<Seq<char>>::empty());
    assert((seq![def_line])[0] == def_line);
    assert(spec_run(st1, Seq::<Seq<char>>::empty()) == st1);
    assert(spec_run(st, seq![def_line]) == st1);
    assert((seq![end_line]).skip(1) =~= Seq::<Seq<char>>::empty());
    assert((seq![end_line])[0] == end_line);
    assert(spec_run(st3, Seq::<Seq<char>>::empty()) == st3);
    assert(spec_run(st2, seq![end_line]) == st3);
    assert(spec_run(st, all) == st3);
}

/// Running a concatenation of line sequences runs the first, then the second.
pub proof fn lemma_run_concat(st: TState, a: Seq<Seq<char>>, b: Seq<Seq<char>>)
    ensures
        spec_run(st, a + b) == spec_run(spec_run(st, a), b),
    decreases a.len(),
{
    if a.len() == 0 {
        assert(a + b =~= b);
    } else {
        assert((a + b)[0] == a[0]);
        assert((a + b).skip(1) =~= a.skip(1) + b);
        lemma_run_concat(spec_step(st, a[0]), a.skip(1), b);
    }
}

/// Which include flags one classified statement raises: `say` always needs
/// the stream header; any statement carrying an expression needs whatever its
/// translation needed.
pub open spec fn spec_stmt_needs(s: StmtSpec) -> (bool, bool, bool) {
    match s {
        StmtSpec::ReturnStmt { value } => {
            let e = spec_translate_expr(value);
            (false, e.1, e.2)
        },
        StmtSpec::Say { value } => {
            let e = spec_translate_expr(value);
            (true, e.1, e.2)
        },
        StmtSpec::LetBinding { name, value } => {
            let e = spec_translate_expr(value);
            (false, e.1, e.2)
        },
        StmtSpec::IfThen { cond } => {
            let e = spec_translate_expr(cond);
            (false, e.1, e.2)
        },
        StmtSpec::LoopTimes { count } => {
            let e = spec_translate_expr(count);
            (false, e.1, e.2)
        },
        StmtSpec::WhileDo { cond } => {
            let e = spec_translate_expr(cond);
            (false, e.1, e.2)
        },
        StmtSpec::ExprStmt { value } => {
            let e = spec_translate_expr(value);
            (false, e.1, e.2)
        },
        _ => (false, false, false),
    }
}

/// Which include flags one raw line raises.
pub open spec fn spec_line_needs(raw: Seq<char>) -> (bool, bool, bool) {
    let t = spec_trim(raw);
    if t.len() == 0 {
        (false, false, false)
    } else {
        spec_stmt_needs(spec_classify(t))
    }
}

/// One step ors each include flag with exactly what the line needs: flags are
/// never cleared.
pub proof fn lemma_step_includes(st: TState, raw: Seq<char>)
    ensures
        spec_step(st, raw).inc_iostream == (st.inc_iostream || spec_line_needs(raw).0),
        spec_step(st, raw).inc_string == (st.inc_string || spec_line_needs(raw).1),
        spec_step(st, raw).inc_cmath == (st.inc_cmath || spec_line_needs(raw).2),
{
}

/// Law: after a whole run, an include flag is set if and only if some line
/// needed it.  Together with the assembler's definition — which emits each
/// `#include` line exactly when its flag is set — this is the "include lines
/// appear iff a form requiring them was used" property.
#[verifier::rlimit(50)]
pub proof fn lemma_run_includes(st: TState, lines: Seq<Seq<char>>)
    ensures
        spec_run(st, lines).inc_iostream == (st.inc_iostream || exists|k: int|
            0 <= k < lines.len() && (#[trigger] spec_line_needs(lines[k])).0),
        spec_run(st, lines).inc_string == (st.inc_string || exists|k: int|
            0 <= k < lines.len() && (#[trigger] spec_line_needs(lines[k])).1),
        spec_run(st, lines).inc_cmath == (st.inc_cmath || exists|k: int|
            0 <= k < lines.len() && (#[trigger] spec_line_needs(lines[k])).2),
    decreases lines.len(),
{
    if lines.len() == 0 {
    } else {
        let st1 = spec_step(st, lines[0]);
        lemma_step_includes(st, lines[0]);
        let rest = lines.skip(1);
        lemma_run_includes(st1, rest);
        assert forall|k: int| 0 <= k < rest.len() implies #[trigger] spec_line_needs(rest[k])
            == spec_line_needs(lines[k + 1]) by {
            assert(rest[k] == lines[k + 1]);
        }
        if exists|k: int| 0 <= k < rest.len() && (#[trigger] spec_line_needs(rest[k])).0 {
            let k = choose|k: int| 0 <= k < rest.len() && (#[trigger] spec_line_needs(rest[k])).0;
            assert(spec_line_needs(lines[k + 1]).0);
        }
        if exists|k: int| 0 <= k < rest.len() && (#[trigger] spec_line_needs(rest[k])).1 {
            let k = choose|k: int| 0 <= k < rest.len() && (#[trigger] spec_line_needs(rest[k])).1;
            assert(spec_line_needs(lines[k + 1]).1);
        }
        if exists|k: int| 0 <= k < rest.len() && (#[trigger] spec_line_needs(rest[k])).2 {
            let k = choose|k: int| 0 <= k < rest.len() && (#[trigger] spec_line_needs(rest[k])).2;
            assert(spec_line_needs(lines[k + 1]).2);
        }
        if spec_line_needs(lines[0]).0 || (exists|k: int|
            0 <= k < lines.len() && (#[trigger] spec_line_needs(lines[k])).0) {
            let k = if spec_line_needs(lines[0]).0 {
                0int
            } else {
                choose|k: int| 0 <= k < lines.len() && (#[trigger] spec_line_needs(lines[k])).0
            };
            if k >= 1 {
                assert(spec_line_needs(rest[k - 1]).0);
            }
        }
        if spec_line_needs(lines[0]).1 || (exists|k: int|
            0 <= k < lines.len() && (#[trigger] spec_line_needs(lines[k])).1) {
            let k = if spec_line_needs(lines[0]).1 {
                0int
            } else {
                choose|k: int| 0 <= k < lines.len() && (#[trigger] spec_line_needs(lines[k])).1
            };
            if k >= 1 {
                assert(spec_line_needs(rest[k - 1]).1);
            }
        }
        if spec_line_needs(lines[0]).2 || (exists|k: int|
            0 <= k < lines.len() && (#[trigger] spec_line_needs(lines[k])).2) {
            let k = if spec_line_needs(lines[0]).2 {
                0int
            } else {
                choose|k: int| 0 <= k < lines.len() && (#[trigger] spec_line_needs(lines[k])).2
            };
            if k >= 1 {
                assert(spec_line_needs(rest[k - 1]).2);
            }
        }
    }
}

/// Law: over a whole run from the initial state, each include flag ends up
/// set exactly when some input line used a form that needs the header.
pub proof fn lemma_includes_iff_used(s: Seq<char>)
    ensures
        spec_run(spec_init(), spec_lines(s)).inc_cmath <==> exists|k: int|
            0 <= k < spec_lines(s).len() && (#[trigger] spec_line_needs(spec_lines(s)[k])).2,
        spec_run(spec_init(), spec_lines(s)).inc_string <==> exists|k: int|
            0 <= k < spec_lines(s).len() && (#[trigger] spec_line_needs(spec_lines(s)[k])).1,
        spec_run(spec_init(), spec_lines(s)).inc_iostream <==> exists|k: int|
            0 <= k < spec_lines(s).len() && (#[trigger] spec_line_needs(spec_lines(s)[k])).0,
{
    lemma_run_includes(spec_init(), spec_lines(s));
}

} // verus!
