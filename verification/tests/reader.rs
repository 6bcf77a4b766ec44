use sail::env::environment_setup;
use sail::error::SlErrCode;
use sail::parser::{parse, read};
use sail::printer::context;
use sail::region::Region;
use sail::stab::Stab;

fn round(reg: &mut Region, tbl: &mut Stab, text: &str) -> String {
    let val = parse(reg, tbl, text, false).unwrap();
    context(reg, tbl, val).to_string()
}

fn fresh() -> (Region, Stab) {
    let mut tbl = Stab::new();
    environment_setup(&mut tbl);
    (Region::acquire(100000), tbl)
}

#[test]
fn parses() {
    let mut reg = Region::acquire(10000);
    let mut tbl = Stab::new();

    let exp = String::from("(+ (() 42 (e) #T) #F 2.1 e)");
    let val = parse(&mut reg, &mut tbl, &exp, false).unwrap();
    let out = context(&reg, &tbl, val).to_string();
    assert_eq!(exp, out);

    let exp = String::from("(() (()) ((((() ())))))");
    let val = parse(&mut reg, &mut tbl, &exp, false).unwrap();
    let out = context(&reg, &tbl, val).to_string();
    assert_eq!(exp, out);

    let exp = String::from("((1 2 3 4) ;Comment\n5)");
    let gnd = String::from("((1 2 3 4) 5)");
    let val = parse(&mut reg, &mut tbl, &exp, false).unwrap();
    let out = context(&reg, &tbl, val).to_string();
    assert_eq!(gnd, out);
}

#[test]
fn integer_prints_as_itself() {
    let (mut reg, mut tbl) = fresh();
    assert_eq!(round(&mut reg, &mut tbl, "42"), "42");
    assert_eq!(round(&mut reg, &mut tbl, "-7"), "-7");
    assert_eq!(round(&mut reg, &mut tbl, "+7"), "7");
    assert_eq!(round(&mut reg, &mut tbl, "0"), "0");
    assert_eq!(round(&mut reg, &mut tbl, "007"), "7");
    assert_eq!(round(&mut reg, &mut tbl, "9223372036854775807"), "9223372036854775807");
    assert_eq!(round(&mut reg, &mut tbl, "-9223372036854775808"), "-9223372036854775808");
}

#[test]
fn integer_out_of_range_is_a_float() {
    let (mut reg, mut tbl) = fresh();
    assert_eq!(round(&mut reg, &mut tbl, "9223372036854775808"), "9223372036854775808");
    assert_eq!(round(&mut reg, &mut tbl, "2.1"), "2.1");
    assert_eq!(round(&mut reg, &mut tbl, "1e3"), "1e3");
    assert_eq!(round(&mut reg, &mut tbl, "-1.5E-3"), "-1.5E-3");
    assert_eq!(round(&mut reg, &mut tbl, "5."), "5.");
}

#[test]
fn three_cell_list() {
    let (mut reg, mut tbl) = fresh();
    let before = reg.count();
    let val = parse(&mut reg, &mut tbl, "(+ 2 2)", false).unwrap();
    // three values and three cells
    assert_eq!(reg.count(), before + 6);
    assert_eq!(context(&reg, &tbl, val).to_string(), "(+ 2 2)");
    // the second and third cell each stand in a "next" slot
    let second = reg.get_next_list_elt(val);
    let third = reg.get_next_list_elt(second);
    assert_eq!(reg.refc(val), 0);
    assert_eq!(reg.refc(second), 1);
    assert_eq!(reg.refc(third), 1);
    assert!(sail::region::nil_p(reg.get_next_list_elt(third)));
    // each element stands in the slot of its cell
    assert_eq!(reg.refc(reg.ref_get(val)), 1);
    assert_eq!(reg.refc(reg.ref_get(second)), 1);
    assert_eq!(reg.refc(reg.ref_get(third)), 1);
    // the nil sentinel is not counted
    assert_eq!(reg.refc(sail::region::nil()), 0);
}

#[test]
fn quoted_value_is_counted_once() {
    let (mut reg, mut tbl) = fresh();
    let val = parse(&mut reg, &mut tbl, "'x", false).unwrap();
    assert_eq!(context(&reg, &tbl, val).to_string(), "(quote x)");
    let op = reg.ref_get(val);
    assert_eq!(reg.sym_get_id(op), sail::env::SP_QUOTE);
    let second = reg.get_next_list_elt(val);
    let x = reg.ref_get(second);
    assert_eq!(tbl.get_name(reg.sym_get_id(x)), b"x");
    assert!(sail::region::nil_p(reg.get_next_list_elt(second)));
    assert_eq!(reg.refc(x), 1);
    assert_eq!(reg.refc(op), 1);
    assert_eq!(reg.refc(second), 1);
    assert_eq!(reg.refc(val), 0);
    assert_eq!(parse(&mut reg, &mut tbl, "'", false), Err(SlErrCode::ParseUnexpectedEnd));
}

#[test]
fn vector_and_map_elements_are_counted_once() {
    let (mut reg, mut tbl) = fresh();
    let before = reg.count();
    let val = parse(&mut reg, &mut tbl, "[1 (a b) {k v} \"s\"]", false).unwrap();
    assert_eq!(val.idx, reg.count() - 1);
    for k in before..reg.count() {
        let want = if k == val.idx { 0 } else { 1 };
        assert_eq!(reg.refc(sail::region::SlHndl { idx: k }), want);
    }
}

#[test]
fn mixed_literals_round_trip() {
    let (mut reg, mut tbl) = fresh();
    let text = "(() 42 (e) #T)";
    assert_eq!(round(&mut reg, &mut tbl, text), text);
    assert_eq!(round(&mut reg, &mut tbl, "#F"), "#F");
    assert_eq!(round(&mut reg, &mut tbl, "#t"), "#T");
    assert_eq!(round(&mut reg, &mut tbl, "#f"), "#F");
    assert_eq!(round(&mut reg, &mut tbl, "e"), "e");
    assert_eq!(round(&mut reg, &mut tbl, "()"), "()");
    assert_eq!(round(&mut reg, &mut tbl, "  \t\n 12 trailing"), "12");
}

#[test]
fn only_first_form_is_read() {
    let (mut reg, mut tbl) = fresh();
    assert_eq!(round(&mut reg, &mut tbl, "(() 42 (e) #T) #F 2.1 e"), "(() 42 (e) #T)");
}

#[test]
fn sequence_of_forms_in_file_mode() {
    let (mut reg, mut tbl) = fresh();
    let text = "(() 42 (e) #T) #F 2.1 e";
    let val = parse(&mut reg, &mut tbl, text, true).unwrap();
    assert_eq!(context(&reg, &tbl, val).to_string(), format!("(do {})", text));
}

#[test]
fn sign_alone_is_a_symbol() {
    let (mut reg, mut tbl) = fresh();
    assert_eq!(round(&mut reg, &mut tbl, "+"), "+");
    assert_eq!(round(&mut reg, &mut tbl, "-"), "-");
    assert_eq!(round(&mut reg, &mut tbl, "+ "), "+");
    assert_eq!(round(&mut reg, &mut tbl, "(+)"), "(+)");
    assert_eq!(round(&mut reg, &mut tbl, "-a"), "-a");
    assert_eq!(round(&mut reg, &mut tbl, "-1"), "-1");
    let val = parse(&mut reg, &mut tbl, "-", false).unwrap();
    assert!(reg.typed_p(val, sail::tag::CoreType::Symbol));
    assert_eq!(tbl.get_name(reg.sym_get_id(val)), b"-");
}

#[test]
fn comment_is_stripped() {
    let (mut reg, mut tbl) = fresh();
    assert_eq!(round(&mut reg, &mut tbl, "((1 2 3 4) ;Comment\n5)"), "((1 2 3 4) 5)");
    assert_eq!(round(&mut reg, &mut tbl, "; first\n  ; second\n7"), "7");
    assert_eq!(round(&mut reg, &mut tbl, "[1 ;x\n 2]"), "[1 2]");
}

#[test]
fn unclosed_list_ends_unexpectedly() {
    let (mut reg, mut tbl) = fresh();
    assert_eq!(parse(&mut reg, &mut tbl, "(1 2", false), Err(SlErrCode::ParseUnexpectedEnd));
    assert_eq!(parse(&mut reg, &mut tbl, "", false), Err(SlErrCode::ParseUnexpectedEnd));
    assert_eq!(parse(&mut reg, &mut tbl, "   ", false), Err(SlErrCode::ParseUnexpectedEnd));
    assert_eq!(parse(&mut reg, &mut tbl, "; only a comment", false), Err(SlErrCode::ParseUnexpectedEnd));
    assert_eq!(parse(&mut reg, &mut tbl, "(1 ; no end", false), Err(SlErrCode::ParseUnexpectedEnd));
    assert_eq!(parse(&mut reg, &mut tbl, "\"open", false), Err(SlErrCode::ParseUnexpectedEnd));
    assert_eq!(parse(&mut reg, &mut tbl, ":", false), Err(SlErrCode::ParseUnexpectedEnd));
    assert_eq!(parse(&mut reg, &mut tbl, "#", false), Err(SlErrCode::ParseUnexpectedEnd));
    assert_eq!(parse(&mut reg, &mut tbl, "'", false), Err(SlErrCode::ParseUnexpectedEnd));
}

#[test]
fn bad_special() {
    let (mut reg, mut tbl) = fresh();
    assert_eq!(parse(&mut reg, &mut tbl, "#Q", false), Err(SlErrCode::ParseBadSpecial));
    assert_eq!(parse(&mut reg, &mut tbl, "#TT", false), Err(SlErrCode::ParseBadSpecial));
    assert_eq!(parse(&mut reg, &mut tbl, "#true", false), Err(SlErrCode::ParseBadSpecial));
}

#[test]
fn invalid_char() {
    let (mut reg, mut tbl) = fresh();
    assert_eq!(parse(&mut reg, &mut tbl, "%", false), Err(SlErrCode::ParseInvalidChar));
    assert_eq!(parse(&mut reg, &mut tbl, ")", false), Err(SlErrCode::ParseInvalidChar));
    assert_eq!(parse(&mut reg, &mut tbl, "ab(c", false), Err(SlErrCode::ParseInvalidChar));
    assert_eq!(parse(&mut reg, &mut tbl, ":a!", false), Err(SlErrCode::ParseInvalidChar));
    assert_eq!(parse(&mut reg, &mut tbl, "12;", false), Err(SlErrCode::ParseInvalidChar));
    assert_eq!(parse(&mut reg, &mut tbl, "!a", false), Err(SlErrCode::ParseInvalidChar));
    assert_eq!(parse(&mut reg, &mut tbl, "#?", false), Err(SlErrCode::ParseInvalidChar));
}

#[test]
fn invalid_num() {
    let (mut reg, mut tbl) = fresh();
    assert_eq!(parse(&mut reg, &mut tbl, "1_000", false), Err(SlErrCode::ParseInvalidNum));
    assert_eq!(parse(&mut reg, &mut tbl, "12ab", false), Err(SlErrCode::ParseInvalidNum));
    assert_eq!(parse(&mut reg, &mut tbl, "1e", false), Err(SlErrCode::ParseInvalidNum));
    assert_eq!(parse(&mut reg, &mut tbl, "1.2.3", false), Err(SlErrCode::ParseInvalidNum));
    assert_eq!(parse(&mut reg, &mut tbl, "-1-", false), Err(SlErrCode::ParseInvalidNum));
}

#[test]
fn invalid_string() {
    let mut tbl = Stab::new();
    let bytes: Vec<u8> = vec![b'"', 0xff, 0xfe, b'"'];
    assert!(matches!(read(&mut tbl, &bytes, false), Err(SlErrCode::ParseInvalidString)));
    let good: Vec<u8> = vec![b'"', 0xc3, 0xa9, b'"'];
    assert!(read(&mut tbl, &good, false).is_ok());
}

#[test]
fn strings_round_trip() {
    let (mut reg, mut tbl) = fresh();
    assert_eq!(round(&mut reg, &mut tbl, "\"hello world\""), "\"hello world\"");
    assert_eq!(round(&mut reg, &mut tbl, "\"\""), "\"\"");
    assert_eq!(round(&mut reg, &mut tbl, "\"a;b(c\""), "\"a;b(c\"");
    assert_eq!(round(&mut reg, &mut tbl, "\"caf\u{e9}\""), "\"caf\u{e9}\"");
    // no escapes: the backslash is a byte like any other, the quote ends the string
    assert_eq!(round(&mut reg, &mut tbl, "\"a\\\"b\""), "\"a\\\"");
}

#[test]
fn symbols_of_every_mode() {
    let (mut reg, mut tbl) = fresh();
    assert_eq!(round(&mut reg, &mut tbl, ":key"), ":key");
    assert_eq!(round(&mut reg, &mut tbl, "$i64"), "$i64");
    assert_eq!(round(&mut reg, &mut tbl, "@mod-a"), "@mod-a");
    assert_eq!(round(&mut reg, &mut tbl, "plain?"), "plain?");
    assert_eq!(round(&mut reg, &mut tbl, "(-)"), "(-)");
    assert_eq!(round(&mut reg, &mut tbl, "- "), "-");
    assert_eq!(round(&mut reg, &mut tbl, "<="), "<=");
    assert_eq!(round(&mut reg, &mut tbl, "(- a b)"), "(- a b)");
}

#[test]
fn quote_makes_two_cells() {
    let (mut reg, mut tbl) = fresh();
    assert_eq!(round(&mut reg, &mut tbl, "'a"), "(quote a)");
    assert_eq!(round(&mut reg, &mut tbl, "'(1 2)"), "(quote (1 2))");
    assert_eq!(round(&mut reg, &mut tbl, "''x"), "(quote (quote x))");
}

#[test]
fn vectors_round_trip() {
    let (mut reg, mut tbl) = fresh();
    assert_eq!(round(&mut reg, &mut tbl, "[]"), "[]");
    assert_eq!(round(&mut reg, &mut tbl, "[1]"), "[1]");
    assert_eq!(round(&mut reg, &mut tbl, "[1 [2 3] (a) \"s\"]"), "[1 [2 3] (a) \"s\"]");
}

#[test]
fn maps_print_by_bucket() {
    let (mut reg, mut tbl) = fresh();
    assert_eq!(round(&mut reg, &mut tbl, "{}"), "{}");
    assert_eq!(round(&mut reg, &mut tbl, "{1 one 2 two}"), "{1 one 2 two}");
    // 17 falls into bucket 1, after 1; 2 into bucket 2
    assert_eq!(round(&mut reg, &mut tbl, "{2 b 17 c 1 a}"), "{17 c 1 a 2 b}");
    assert_eq!(round(&mut reg, &mut tbl, "{-1 m 0 z}"), "{0 z -1 m}");
}

#[test]
fn odd_map_drops_last_key() {
    let (mut reg, mut tbl) = fresh();
    assert_eq!(round(&mut reg, &mut tbl, "{1 one 2}"), "{1 one}");
    assert_eq!(round(&mut reg, &mut tbl, "{1}"), "{}");
}

#[test]
fn file_mode_wraps_in_do() {
    let (mut reg, mut tbl) = fresh();
    let val = parse(&mut reg, &mut tbl, "(def x 1) x", true).unwrap();
    assert_eq!(context(&reg, &tbl, val).to_string(), "(do (def x 1) x)");
    let val = parse(&mut reg, &mut tbl, "", true).unwrap();
    assert_eq!(context(&reg, &tbl, val).to_string(), "(do)");
}

#[test]
fn full_region_gives_unknown_error() {
    let mut tbl = Stab::new();
    let mut reg = Region::acquire(40);
    // two integers and two cells take 64 bytes
    assert_eq!(parse(&mut reg, &mut tbl, "(1 2)", false), Err(SlErrCode::ErrorUnknown));
    let mut reg = Region::acquire(64);
    let val = parse(&mut reg, &mut tbl, "(1 2)", false).unwrap();
    assert_eq!(reg.free(), 0);
    assert_eq!(context(&reg, &tbl, val).to_string(), "(1 2)");
    // a failed parse of bad text leaves the region alone
    let mut reg = Region::acquire(64);
    assert_eq!(parse(&mut reg, &mut tbl, "(1 2", false), Err(SlErrCode::ParseUnexpectedEnd));
    assert_eq!(reg.count(), 1);
    assert_eq!(reg.free(), 64);
}

#[test]
fn printing_twice_gives_the_same_text() {
    let (mut reg, mut tbl) = fresh();
    let text = "(a :b $c @d [1 2.5 \"s\"] (#T #F ()) -3)";
    let once = round(&mut reg, &mut tbl, text);
    assert_eq!(once, text);
    let twice = round(&mut reg, &mut tbl, &once);
    assert_eq!(twice, once);
}
