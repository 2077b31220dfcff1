use flowc::transpile;

#[test]
fn deterministic_repeated_calls() {
    let src = "define f(a)\nreturn a ^ 2\nend\nsay \"go\"\nlet x = 1\nif x then\ngrow x\nelse\nbreak\nend";
    let a = transpile(src);
    let b = transpile(src);
    assert_eq!(a, b);
}

#[test]
fn say_string_emits_stream_output() {
    let out = transpile("say \"hello\"");
    assert!(out.contains("std::cout << std::string(\"hello\") << std::endl;"));
    assert!(out.contains("#include <iostream>"));
    assert!(out.contains("#include <string>"));
}

#[test]
fn let_binding_renders_auto() {
    let out = transpile("let x = 42");
    assert!(out.contains("    auto x = 42;\n"));
}

#[test]
fn phi_literal_distinct_from_grow_constant() {
    let say = transpile("say phi");
    let grow = transpile("grow x");
    assert!(say.contains("1.6180339887498948"));
    assert!(grow.contains("x *= 1.618033988749895;"));
    assert!(!grow.contains("1.6180339887498948"));
    assert_ne!("1.6180339887498948", "1.618033988749895");
}

#[test]
fn balanced_define_returns_to_main() {
    let out = transpile("define f(a)\nreturn a\nend\nsay 1");
    assert_eq!(
        out,
        "// Generated by flowc — the Flow compiler\n#include <iostream>\n\nauto f(auto a) {\n    return a;\n}\n\nint main() {\nstd::cout << 1 << std::endl;\n    return 0;\n}\n"
    );
}

#[test]
fn unmatched_end_clamps_at_zero() {
    let out = transpile("end\nend\nsay 1");
    assert_eq!(
        out,
        "// Generated by flowc — the Flow compiler\n#include <iostream>\n\nint main() {\n}\n}\nstd::cout << 1 << std::endl;\n    return 0;\n}\n"
    );
}

#[test]
fn power_translates_recursively() {
    let out = transpile("say 2 ^ 3");
    assert!(out.contains("std::cout << std::pow(2, 3) << std::endl;"));
    assert!(out.contains("#include <cmath>"));
}

#[test]
fn chained_power_nests_to_the_right() {
    let out = transpile("say 2 ^ 3 ^ 4");
    assert!(out.contains("std::pow(2, std::pow(3, 4))"));
}

#[test]
fn includes_only_when_needed() {
    let out = transpile("let x = 1");
    assert!(!out.contains("#include <iostream>"));
    assert!(!out.contains("#include <string>"));
    assert!(!out.contains("#include <cmath>"));
    let out2 = transpile("say 1");
    assert!(out2.contains("#include <iostream>"));
    assert!(!out2.contains("#include <cmath>"));
    let out3 = transpile("let y = 2 ^ 8");
    assert!(out3.contains("#include <cmath>"));
    assert!(!out3.contains("#include <iostream>"));
}

#[test]
fn nested_define_discards_unclosed_definition() {
    let out = transpile("define f()\ndefine g()\nend\nsay 2");
    assert!(out.contains("auto f() {\nauto g() {\n}\n\n"));
    assert_eq!(out.matches("auto f() {").count(), 1);
    assert_eq!(out.matches('}').count(), 2);
}

#[test]
fn empty_input_still_compiles_to_a_unit() {
    let out = transpile("");
    assert_eq!(
        out,
        "// Generated by flowc — the Flow compiler\n\nint main() {\n    return 0;\n}\n"
    );
}

#[test]
fn comment_lines_become_cpp_comments() {
    let out = transpile("--   a note");
    assert!(out.contains("    // a note\n"));
}

#[test]
fn let_without_equals_is_dropped() {
    let out = transpile("let x");
    assert_eq!(
        out,
        "// Generated by flowc — the Flow compiler\n\nint main() {\n    return 0;\n}\n"
    );
}

#[test]
fn if_else_end_blocks_indent() {
    let out = transpile("if x then\nsay 1\nelse\nsay 2\nend");
    assert!(out.contains("    if (x) {\n        std::cout << 1 << std::endl;\n    } else {\n        std::cout << 2 << std::endl;\n    }\n"));
}

#[test]
fn loop_times_renders_counting_for() {
    let out = transpile("loop 3 times\nbreak\nend");
    assert!(out.contains("    for (int _i = 0; _i < 3; _i++) {\n        break;\n    }\n"));
}

#[test]
fn while_do_renders_condition_with_keywords() {
    let out = transpile("while x and y do\ncontinue\nend");
    assert!(out.contains("    while (x && y) {\n        continue;\n    }\n"));
}

#[test]
fn boolean_keyword_substitutions() {
    let out = transpile("say a or b");
    assert!(out.contains("std::cout << a || b << std::endl;"));
    let out2 = transpile("say not a");
    assert!(out2.contains("std::cout << !a << std::endl;"));
}

#[test]
fn true_false_pass_through() {
    let out = transpile("let t = true\nlet f = false");
    assert!(out.contains("    auto t = true;\n    auto f = false;\n"));
}

#[test]
fn numerals_pass_through_unchanged() {
    let out = transpile("say 3.5\nsay 1e3\nsay -0.25");
    assert!(out.contains("std::cout << 3.5 << std::endl;"));
    assert!(out.contains("std::cout << 1e3 << std::endl;"));
    assert!(out.contains("std::cout << -0.25 << std::endl;"));
}

#[test]
fn define_parameters_joined_with_auto() {
    let out = transpile("define mix(a, b, c)\nend");
    assert!(out.contains("auto mix(auto a, auto b, auto c) {"));
}

#[test]
fn define_empty_parameter_entries_discarded() {
    let out = transpile("define f(a,,b)\nend");
    assert!(out.contains("auto f(auto a, auto b) {"));
}

#[test]
fn return_statement_in_main() {
    let out = transpile("return 5");
    assert!(out.contains("    return 5;\n"));
}

#[test]
fn unrecognized_line_is_expression_statement() {
    let out = transpile("x + 1");
    assert!(out.contains("    x + 1;\n"));
}

#[test]
fn statements_after_closed_define_sit_at_column_zero() {
    let out = transpile("define f()\nend\nlet z = 9");
    assert!(out.contains("\nauto z = 9;\n"));
}

#[test]
fn blank_lines_are_skipped() {
    let a = transpile("say 1\n\n\nsay 2");
    let b = transpile("say 1\nsay 2");
    assert_eq!(a, b);
}
