use rusmt_lang::imp::ast::{Aexp, Bexp, Com};
use rusmt_lang::imp::parser::parse_imp_source;
use rusmt_lang::imp_render::{
    com_to_source, decode_bv, is_valid_ident, model_to_com, render_response, Reader, Sexp,
};

const DEFINE_FUN_MODEL: &str = "sat\n(\n  (define-fun input_0 () Com\n    (Com_Seq (Com_Assign \"A\" (Aexp_Num #x0000000000000005))\n             (Com_Assign \"\" (Aexp_Div (Aexp_Var \"A\") (Aexp_Num #x0000000000000000)))))\n)\n";

#[test]
fn a_define_fun_model_renders_as_source() {
    let src = render_response(DEFINE_FUN_MODEL).expect("sat model");
    assert_eq!(src, "A := 5 ; v0 := (A / 0)");
    assert!(parse_imp_source(&src).is_ok());
}

#[test]
fn an_arrow_model_with_lets_renders_as_source() {
    let model = "sat\ninput_0 -> (let ((a!1 (Aexp_Num #xffffffffffffffff))) (Com_While (Bexp_Le a!1 a!1) (Com_Assign \"x y\" a!1)))\n";
    let src = render_response(model).expect("sat model");
    assert_eq!(src, "while (-1 <= -1) do v0 := -1");
}

#[test]
fn a_non_sat_response_renders_nothing() {
    assert_eq!(render_response("unsat\n"), None);
    assert_eq!(render_response("unknown"), None);
    assert_eq!(render_response(""), None);
    assert_eq!(render_response("  sat  \n(garbage"), None);
}

#[test]
fn model_to_com_reports_a_missing_program() {
    assert_eq!(
        model_to_com("sat\n(model)\n"),
        Err("input_0 not found in model".to_string())
    );
    assert_eq!(
        model_to_com("input_0 -> (Com_Frob)"),
        Err("input_0 is not an IMP program".to_string())
    );
    assert_eq!(model_to_com("input_0 -> Com_Skip"), Ok(Com::Skip));
}

#[test]
fn decode_bv_reads_twos_complement() {
    let bv = |s: &str| Sexp::Atom(s.chars().collect());
    assert_eq!(decode_bv(&bv("#x8000000000000000")), Some(i64::MIN));
    assert_eq!(decode_bv(&bv("#xffffffffffffffff")), Some(-1));
    assert_eq!(decode_bv(&bv("#x7fffffffffffffff")), Some(i64::MAX));
    assert_eq!(decode_bv(&bv("#x+1f")), Some(31));
    assert_eq!(decode_bv(&bv("#x10000000000000000")), None);
    assert_eq!(decode_bv(&bv("#xg1")), None);
    assert_eq!(decode_bv(&bv("#x")), None);
    assert_eq!(decode_bv(&bv("12")), None);
}

#[test]
fn the_reader_handles_strings_and_lists() {
    let mut r = Reader::new("  (a \"b\"\"c\" (d))");
    match r.read() {
        Some(Sexp::List(items)) => {
            assert_eq!(items.len(), 3);
            match &items[1] {
                Sexp::Str(t) => assert_eq!(t.iter().collect::<String>(), "b\"c"),
                _ => panic!("expected a string"),
            }
        }
        _ => panic!("expected a list"),
    }
    assert!(Reader::new("(a (b)").read().is_none());
}

#[test]
fn printed_names_are_canonical_identifiers() {
    assert!(is_valid_ident("x_1"));
    assert!(is_valid_ident("_"));
    assert!(!is_valid_ident("1x"));
    assert!(!is_valid_ident("while"));
    assert!(!is_valid_ident(""));
    let c = Com::Sequence(
        Box::new(Com::Assign("!0!".to_string(), Box::new(Aexp::Num(-3)))),
        Box::new(Com::If(
            Box::new(Bexp::Not(Box::new(Bexp::Eq(
                Box::new(Aexp::Var("!0!".to_string())),
                Box::new(Aexp::Var("".to_string())),
            )))),
            Box::new(Com::Skip),
            Box::new(Com::Sequence(Box::new(Com::Skip), Box::new(Com::Skip))),
        )),
    );
    let src = com_to_source(&c);
    assert_eq!(src, "v0 := -3 ; if (not (v0 == v1)) then skip else (skip ; skip)");
    assert!(parse_imp_source(&src).is_ok());
}

#[test]
fn printed_source_with_every_construct_parses() {
    let num = |n: i64| Box::new(Aexp::Num(n));
    let var = |x: &str| Box::new(Aexp::Var(x.to_string()));
    let cond = Bexp::Or(
        Box::new(Bexp::And(
            Box::new(Bexp::Le(Box::new(Aexp::Add(num(1), var("x"))), num(i64::MIN))),
            Box::new(Bexp::True),
        )),
        Box::new(Bexp::Not(Box::new(Bexp::False))),
    );
    let c = Com::Sequence(
        Box::new(Com::While(
            Box::new(cond),
            Box::new(Com::Assign("y".to_string(), Box::new(Aexp::Sub(var("y"), num(-2))))),
        )),
        Box::new(Com::Sequence(
            Box::new(Com::Assign(
                "and".to_string(),
                Box::new(Aexp::Mul(num(3), Box::new(Aexp::Div(var("x"), num(4))))),
            )),
            Box::new(Com::Skip),
        )),
    );
    let src = com_to_source(&c);
    assert_eq!(
        src,
        "while ((((1 + x) <= -9223372036854775808) and true) or (not false)) do y := (y - -2) ; (v0 := (3 * (x / 4)) ; skip)"
    );
    assert!(parse_imp_source(&src).is_ok());
}

#[test]
fn an_invented_name_never_takes_a_name_of_the_program() {
    let c = Com::Sequence(
        Box::new(Com::Assign("v0".to_string(), Box::new(Aexp::Num(1)))),
        Box::new(Com::Assign("x".to_string(), Box::new(Aexp::Var("".to_string())))),
    );
    let src = com_to_source(&c);
    assert_eq!(src, "v0 := 1 ; x := v1");
    let c2 = Com::Sequence(
        Box::new(Com::Assign("".to_string(), Box::new(Aexp::Var("v1".to_string())))),
        Box::new(Com::Assign("v0".to_string(), Box::new(Aexp::Var("!".to_string())))),
    );
    assert_eq!(com_to_source(&c2), "v2 := v1 ; v0 := v3");
}

#[test]
fn printed_source_with_valid_names_reads_back_as_the_same_command() {
    let num = |n: i64| Box::new(Aexp::Num(n));
    let var = |x: &str| Box::new(Aexp::Var(x.to_string()));
    let make = || {
        Com::Sequence(
            Box::new(Com::While(
                Box::new(Bexp::Or(
                    Box::new(Bexp::Le(var("x"), num(i64::MIN))),
                    Box::new(Bexp::Not(Box::new(Bexp::Eq(var("_y1"), num(i64::MAX))))),
                )),
                Box::new(Com::Assign("x".to_string(), Box::new(Aexp::Sub(var("x"), num(-2))))),
            )),
            Box::new(Com::If(
                Box::new(Bexp::And(Box::new(Bexp::True), Box::new(Bexp::False))),
                Box::new(Com::Sequence(Box::new(Com::Skip), Box::new(Com::Skip))),
                Box::new(Com::Assign(
                    "v0".to_string(),
                    Box::new(Aexp::Mul(num(3), Box::new(Aexp::Div(var("x"), num(0))))),
                )),
            )),
        )
    };
    let src = com_to_source(&make());
    assert_eq!(parse_imp_source(&src), Ok(make()));
}
