use rusmt_lang::imp::parser::parse_imp_source;

fn parse_ok(src: &str) {
    if let Err(e) = parse_imp_source(src) {
        panic!("expected Ok on {src:?}, got Err({e})");
    }
}

fn parse_err(src: &str) -> String {
    match parse_imp_source(src) {
        Err(e) => e,
        Ok(_) => panic!("expected Err on {src:?}, got Ok"),
    }
}

#[test]
fn bare_ident_in_assign() {
    parse_ok("x := y");
}

#[test]
fn ident_in_arith() {
    parse_ok("x := x + 5");
}

#[test]
fn unary_minus() {
    parse_ok("x := -5");
}

#[test]
fn simple_assign() {
    parse_ok("x := 5");
}

#[test]
fn paren_lhs_compare() {
    parse_ok("if (x + y) == z then skip else skip");
}

#[test]
fn paren_bool() {
    parse_ok("if (true) then skip else skip");
}

#[test]
fn full_conditional() {
    parse_ok("if x == 0 then skip else x := x - 1");
}

#[test]
fn trailing_minus_is_error_not_panic() {
    let _ = parse_err("x := -");
}

#[test]
fn error_names_the_byte_and_the_text_near_it() {
    assert_eq!(
        parse_err("x := -"),
        "expected digits after `-` at byte 5 (near \"-\")"
    );
}

#[test]
fn error_text_is_quoted_with_escapes() {
    assert_eq!(
        parse_err(r#"x := "ab\c""#),
        r#"expected a number, a variable, or `(` at byte 5 (near "\"ab\\c\"")"#
    );
}

#[test]
fn error_text_cut_inside_a_character_is_replaced() {
    assert_eq!(
        parse_err("x := #aaaaaaaaaaaaaa\u{e9}"),
        "expected a number, a variable, or `(` at byte 5 (near \"#aaaaaaaaaaaaaa\u{fffd}\")"
    );
}
