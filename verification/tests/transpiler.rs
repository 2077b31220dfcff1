use flowc::transpile;

const PHI: &str = "1.6180339887498948";

#[test]
fn test_say() {
    let out = transpile("say \"hello\"");
    assert!(out.contains("std::cout"));
    assert!(out.contains("hello"));
}

#[test]
fn test_let() {
    let out = transpile("let x = 42");
    assert!(out.contains("auto x = 42;"));
}

#[test]
fn test_phi() {
    let out = transpile("say phi");
    assert!(out.contains(PHI));
}
