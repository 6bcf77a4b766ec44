use sail::env::{T_NIL, T_T};
use sail::error::SlErrCode;
use sail::number::{float_literal_p, parse_int, push_int};
use sail::printer::context;
use sail::region::{nil, nil_p, Region, SlHndl};
use sail::stab::Stab;
use sail::tag::{
    base_size, core_type_of, payload_offset, pred_type_offset, pred_type_p, self_type_p, type_id,
    CoreType, FLAG_PRED, FLAG_SELF, TAG_BOOL_F, TAG_BOOL_T, TAG_I64, TAG_NIL, TAG_PTR, TAG_SYM,
    TAG_VEC_ANY, TAG_VEC_STD,
};

#[test]
fn tag_decides_layout() {
    assert_eq!(payload_offset(TAG_I64), 8);
    assert_eq!(payload_offset(TAG_I64 | FLAG_SELF), 12);
    assert_eq!(payload_offset(TAG_I64 | FLAG_PRED), 12);
    assert_eq!(payload_offset(TAG_I64 | FLAG_SELF | FLAG_PRED), 16);
    assert_eq!(pred_type_offset(TAG_I64 | FLAG_PRED), 8);
    assert_eq!(pred_type_offset(TAG_I64 | FLAG_SELF | FLAG_PRED), 12);
    assert_eq!(base_size(TAG_NIL), Some(0));
    assert_eq!(base_size(TAG_SYM), Some(4));
    assert_eq!(base_size(TAG_PTR), Some(8));
    assert_eq!(base_size(TAG_VEC_STD), None);
    assert!(self_type_p(TAG_SYM | FLAG_SELF));
    assert!(!self_type_p(TAG_SYM | FLAG_PRED));
    assert!(pred_type_p(TAG_SYM | FLAG_PRED));
    assert!(!pred_type_p(TAG_SYM));
}

#[test]
fn tag_names_kind() {
    assert_eq!(core_type_of(TAG_NIL), Some(CoreType::Nil));
    assert_eq!(core_type_of(TAG_BOOL_F), Some(CoreType::Bool));
    assert_eq!(core_type_of(TAG_BOOL_T), Some(CoreType::Bool));
    assert_eq!(core_type_of(TAG_I64 | FLAG_PRED), Some(CoreType::I64));
    assert_eq!(core_type_of(TAG_VEC_ANY), Some(CoreType::VecAny));
    assert_eq!(core_type_of(12), None);
    assert_eq!(core_type_of(255), None);
    assert_eq!(type_id(CoreType::I64), 0xC000_000A);
    assert_eq!(type_id(CoreType::ErrCode), 0xC000_001C);
}

#[test]
fn region_counts_bytes() {
    let mut reg = Region::acquire(30);
    assert_eq!(reg.count(), 1);
    assert_eq!(reg.free(), 30);
    let a = reg.i64_init(5).unwrap();
    assert_eq!(a, SlHndl { idx: 1 });
    assert_eq!(reg.free(), 14);
    assert_eq!(reg.i64_init(6), None);
    assert_eq!(reg.free(), 14);
    let s = reg.sym_init(3).unwrap();
    assert_eq!(reg.free(), 2);
    assert_eq!(reg.tag(s), TAG_SYM);
    assert_eq!(reg.bool_init(true), None);
    assert_eq!(reg.count(), 3);
}

#[test]
fn alloc_stamps_tag() {
    let mut reg = Region::acquire(100);
    let h = reg.alloc_block(20, TAG_VEC_ANY).unwrap();
    assert_eq!(reg.tag(h), TAG_VEC_ANY);
    assert_eq!(reg.free(), 100 - 28);
    let g = reg.alloc_block(4, 12 | FLAG_SELF | FLAG_PRED).unwrap();
    assert_eq!(reg.free(), 100 - 28 - 20);
    assert_eq!(reg.core_type(g), None);
    assert_eq!(reg.alloc_block(1000, TAG_VEC_ANY), None);
}

#[test]
fn self_and_pred_types() {
    let mut reg = Region::acquire(1000);
    let n = reg.i64_init(1).unwrap();
    assert_eq!(reg.get_self_type(n), 0xC000_000A);
    assert_eq!(reg.get_pred_type(n), T_T);
    assert_eq!(reg.get_self_type(nil()), T_NIL);
    assert_eq!(reg.get_pred_type(nil()), T_NIL);
    let x = reg.alloc_block(4, 12 | FLAG_SELF | FLAG_PRED).unwrap();
    reg.set_self_type(x, 77);
    reg.set_pred_type(x, 88);
    assert_eq!(reg.get_self_type(x), 77);
    assert_eq!(reg.get_pred_type(x), 88);
    // the other value is what it was
    assert_eq!(reg.get_self_type(n), 0xC000_000A);
    let y = reg.alloc_block(8, TAG_I64 | FLAG_PRED).unwrap();
    reg.set_pred_type(y, 99);
    assert_eq!(reg.get_self_type(y), 0xC000_000A);
    assert_eq!(reg.get_pred_type(y), 99);
}

#[test]
fn reference_count_goes_up_and_stays_at_top() {
    let mut reg = Region::acquire(1000);
    let a = reg.i64_init(1).unwrap();
    assert_eq!(reg.refc(a), 0);
    reg.inc_refc(a);
    reg.inc_refc(a);
    assert_eq!(reg.refc(a), 2);
    let c1 = reg.ref_init(a, nil()).unwrap();
    let c0 = reg.ref_init(a, c1).unwrap();
    assert_eq!(reg.refc(c1), 1);
    assert_eq!(reg.refc(c0), 0);
    // the value was stored into two cells
    assert_eq!(reg.refc(a), 4);
    let twice = reg.ref_init(c0, c0).unwrap();
    assert_eq!(reg.refc(c0), 2);
    assert_eq!(reg.refc(twice), 0);
    assert_eq!(reg.get_next_list_elt(c0), c1);
    assert!(nil_p(reg.get_next_list_elt(c1)));
}

#[test]
fn stored_handles_are_counted() {
    let mut reg = Region::acquire(1000);
    let a = reg.i64_init(1).unwrap();
    let b = reg.i64_init(2).unwrap();
    let v = reg.stdvec_init(vec![a, b, a, nil()]).unwrap();
    assert_eq!(reg.refc(a), 2);
    assert_eq!(reg.refc(b), 1);
    assert_eq!(reg.refc(v), 0);
    assert_eq!(reg.refc(nil()), 0);
    let h = reg.hashvec_init(vec![v, nil()]).unwrap();
    assert_eq!(reg.refc(v), 1);
    assert_eq!(reg.refc(h), 0);
    // without room nothing is counted
    let mut small = Region::acquire(20);
    let x = small.i64_init(1).unwrap();
    assert_eq!(small.stdvec_init(vec![x]), None);
    assert_eq!(small.ref_init(x, x), None);
    assert_eq!(small.refc(x), 0);
}

#[test]
fn built_values_print() {
    let mut reg = Region::acquire(1000);
    let tbl = Stab::new();
    let e = reg.errcode_init(SlErrCode::ParseInvalidNum).unwrap();
    assert_eq!(context(&reg, &tbl, e).to_string(), "<err: ParseInvalidNum>");
    let p = reg.alloc_block(8, sail::tag::TAG_PROC_NATIVE).unwrap();
    assert_eq!(context(&reg, &tbl, p).to_string(), "<$proc>");
    let q = reg.alloc_block(8, sail::tag::TAG_QUEUE_TX).unwrap();
    assert_eq!(context(&reg, &tbl, q).to_string(), "<@core/$other>");
    let x = reg.alloc_block(8, 12 | FLAG_SELF).unwrap();
    assert_eq!(context(&reg, &tbl, x).to_string(), "<$other>");
    let s = reg.sym_init(0x4000_0009).unwrap();
    assert_eq!(context(&reg, &tbl, s).to_string(), ":<$other>");
    let t = reg.bool_init(true).unwrap();
    let f = reg.bool_init(false).unwrap();
    let v = reg.stdvec_init(vec![t, f, nil()]).unwrap();
    assert_eq!(context(&reg, &tbl, v).to_bytes(), b"[#T #F ()]".to_vec());
    let fl = reg.f64_init(b"2.5".to_vec()).unwrap();
    let st = reg.string_init(b"hi".to_vec()).unwrap();
    let c2 = reg.ref_init(st, nil()).unwrap();
    let c1 = reg.ref_init(fl, c2).unwrap();
    assert_eq!(context(&reg, &tbl, c1).to_string(), "(2.5 \"hi\")");
    let hv = reg.hashvec_init(vec![nil(), c1]).unwrap();
    let _ = hv;
}

#[test]
fn integers_parse_exactly() {
    assert_eq!(parse_int(b"0"), Some(0));
    assert_eq!(parse_int(b"-0"), Some(0));
    assert_eq!(parse_int(b"+12"), Some(12));
    assert_eq!(parse_int(b"-12"), Some(-12));
    assert_eq!(parse_int(b"9223372036854775807"), Some(i64::MAX));
    assert_eq!(parse_int(b"9223372036854775808"), None);
    assert_eq!(parse_int(b"-9223372036854775808"), Some(i64::MIN));
    assert_eq!(parse_int(b"-9223372036854775809"), None);
    assert_eq!(parse_int(b"99999999999999999999999999"), None);
    assert_eq!(parse_int(b"00000000000000000000000001"), Some(1));
    assert_eq!(parse_int(b""), None);
    assert_eq!(parse_int(b"-"), None);
    assert_eq!(parse_int(b"1a"), None);
    assert_eq!(parse_int(b"--1"), None);
    for text in ["0", "-0", "+12", "-12", "9223372036854775807", "9223372036854775808", "-9223372036854775808", "1a", "", "+"] {
        assert_eq!(parse_int(text.as_bytes()), text.parse::<i64>().ok());
    }
}

#[test]
fn integers_print_exactly() {
    for n in [0i64, 7, -7, 10, 100, -100, 1234567890, i64::MAX, i64::MIN] {
        let mut out: Vec<u8> = Vec::new();
        push_int(&mut out, n);
        assert_eq!(out, n.to_string().into_bytes());
    }
}

#[test]
fn float_shape_agrees_with_std() {
    for text in [
        "1", "1.", "1.5", ".5", ".", "", "+", "-", "+1", "-1.5e10", "1e", "1e+", "1e+5", "1E-5", "1.e5",
        "1e5.5", "1.5.5", "e5", "1ee5", "5.e", "12ab", "1_0", "0.000", "-.5e-1", "1e5x",
        "inf", "+inf", "-Infinity", "INFINITY", "infinit", "infinityy", "in", "nan", "NaN", "-nan",
        "+NAN", "na", "nano", "iNf", "++inf", "inf1",
    ] {
        assert_eq!(float_literal_p(text.as_bytes()), text.parse::<f64>().is_ok(), "{}", text);
    }
}

#[test]
fn fields_are_little_endian_at_any_offset() {
    let mut reg = Region::acquire(1000);
    let h = reg.alloc_block(16, TAG_VEC_ANY).unwrap();
    reg.core_write_field(h, 3, 4, 0xDEAD_BEEF);
    assert_eq!(reg.core_read_field(h, 3, 4), 0xDEAD_BEEF);
    assert_eq!(reg.core_read_field(h, 3, 1), 0xEF);
    assert_eq!(reg.core_read_field(h, 4, 1), 0xBE);
    assert_eq!(reg.core_read_field(h, 5, 2), 0xDEAD);
    // a field apart from it is untouched by a later write
    reg.core_write_field(h, 8, 8, u64::MAX as u128);
    assert_eq!(reg.core_read_field(h, 3, 4), 0xDEAD_BEEF);
    assert_eq!(reg.core_read_field(h, 8, 8), u64::MAX as u128);
    // a 128-bit field
    reg.core_write_field(h, 0, 16, u128::MAX - 5);
    assert_eq!(reg.core_read_field(h, 0, 16), u128::MAX - 5);
    assert_eq!(reg.core_read_field(h, 0, 1), 0xFA);
    reg.core_write_field(h, 3, 4, 0xDEAD_BEEF);
    reg.core_write_field(h, 8, 8, u64::MAX as u128);
    // a value wider than the field is cut to the field
    reg.core_write_field(h, 0, 2, 0x12_3456);
    assert_eq!(reg.core_read_field(h, 0, 2), 0x3456);
    assert_eq!(reg.core_read_field(h, 2, 1), 0xFF);
    assert_eq!(reg.core_read_field(h, 0, 0), 0);
}

#[test]
fn well_formed_tells_a_broken_region() {
    let mut reg = Region::acquire(1000);
    assert!(reg.well_formed());
    let a = reg.i64_init(1).unwrap();
    let c = reg.ref_init(a, nil()).unwrap();
    let v = reg.stdvec_init(vec![a, c]).unwrap();
    assert!(reg.well_formed());
    // a link that leads forward
    reg.heads[c.idx].next = v;
    assert!(!reg.well_formed());
    reg.heads[c.idx].next = nil();
    assert!(reg.well_formed());
    // more bytes used than there are
    reg.used = reg.capacity + 1;
    assert!(!reg.well_formed());
    reg.used = 0;
    // a vector that holds itself
    reg.payloads[v.idx] = sail::region::Payload::Handles(vec![a, v]);
    assert!(!reg.well_formed());
    reg.payloads[v.idx] = sail::region::Payload::Ptr(v);
    assert!(!reg.well_formed());
    reg.payloads.pop();
    assert!(!reg.well_formed());
}

#[test]
fn typed_guard_tells_kinds_apart() {
    let mut reg = Region::acquire(1000);
    let n = reg.i64_init(-3).unwrap();
    let s = reg.sym_init(7).unwrap();
    let b = reg.bool_init(true).unwrap();
    let c = reg.ref_init(n, nil()).unwrap();
    let v = reg.stdvec_init(vec![n, s]).unwrap();
    let t = reg.string_init(b"txt".to_vec()).unwrap();
    assert!(reg.typed_p(n, CoreType::I64));
    assert!(!reg.typed_p(n, CoreType::Symbol));
    assert!(!reg.typed_p(nil(), CoreType::Nil));
    assert_eq!(reg.i64_get(n), -3);
    assert_eq!(reg.sym_get_id(s), 7);
    assert!(reg.bool_get(b));
    assert_eq!(reg.ref_get(c), n);
    assert_eq!(reg.stdvec_get_len(v), 2);
    assert_eq!(reg.stdvec_idx(v, 1), s);
    assert_eq!(reg.string_get(t), b"txt");
    let e = reg.errcode_init(SlErrCode::FileCouldNotRead).unwrap();
    assert_eq!(reg.errcode_get(e), SlErrCode::FileCouldNotRead);
    reg.errcode_set(e, SlErrCode::ParseBadSpecial);
    assert_eq!(reg.errcode_get(e), SlErrCode::ParseBadSpecial);
    assert_eq!(reg.i64_get(n), -3);
    let f = reg.f64_init(b"1.25".to_vec()).unwrap();
    assert_eq!(reg.f64_get(f), b"1.25");
    let hv = reg.hashvec_init(vec![nil(), nil(), nil()]).unwrap();
    assert_eq!(reg.hashvec_get_size(hv), 3);
}
