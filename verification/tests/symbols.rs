use sail::env::{environment_setup, predefined_name, K_CX_SHELL, PREDEFINED, SP_QUOTE, T_NIL, T_T};
use sail::error::SlErrCode;
use sail::stab::Stab;
use sail::symbol::{demodes_sym, mode_of_sym, modeize_sym, SymbolMode};

#[test]
fn mode_bits_round_trip() {
    let modes = [SymbolMode::Basic, SymbolMode::Keyword, SymbolMode::Module, SymbolMode::Type];
    for n in [0u32, 1, 36, 0x3FFF_FFFF, 0x2AAA_AAAA] {
        for m in modes {
            assert_eq!(demodes_sym(modeize_sym(n, m)), n);
            assert_eq!(mode_of_sym(modeize_sym(n, m)), m);
        }
    }
}

#[test]
fn mode_bits_exact_values() {
    assert_eq!(modeize_sym(5, SymbolMode::Basic), 5);
    assert_eq!(modeize_sym(5, SymbolMode::Keyword), 0x4000_0005);
    assert_eq!(modeize_sym(5, SymbolMode::Module), 0x8000_0005);
    assert_eq!(modeize_sym(5, SymbolMode::Type), 0xC000_0005);
    // setting a mode replaces the one that was there
    assert_eq!(modeize_sym(0xC000_0005, SymbolMode::Keyword), 0x4000_0005);
    assert_eq!(demodes_sym(0xFFFF_FFFF), 0x3FFF_FFFF);
    assert_eq!(mode_of_sym(0x7FFF_FFFF), SymbolMode::Keyword);
}

#[test]
fn interning_is_idempotent_and_injective() {
    let mut tbl = Stab::new();
    let a = tbl.get_id(b"alpha");
    let b = tbl.get_id(b"beta");
    let a2 = tbl.get_id(b"alpha");
    assert_eq!(a, 0);
    assert_eq!(b, 1);
    assert_eq!(a, a2);
    assert_ne!(a, b);
    assert_eq!(tbl.len(), 2);
    assert_eq!(tbl.get_name(a), b"alpha");
    assert_eq!(tbl.get_name(b), b"beta");
    let e = tbl.get_id(b"");
    assert_eq!(e, 2);
    assert_eq!(tbl.get_name(e), b"");
    assert_eq!(tbl.lookup(b"gamma"), None);
    assert_eq!(tbl.try_get_id(b"gamma"), Some(3));
    assert!(tbl.has_id(3));
    assert!(!tbl.has_id(4));
}

#[test]
fn predefined_symbols_get_their_indices() {
    let mut tbl = Stab::new();
    environment_setup(&mut tbl);
    assert_eq!(tbl.len(), PREDEFINED);
    for i in 0..PREDEFINED {
        assert_eq!(tbl.get_name(i as u32), predefined_name(i).as_bytes());
    }
    assert_eq!(tbl.get_name(demodes_sym(T_T)), b"t");
    assert_eq!(tbl.get_name(demodes_sym(T_NIL)), b"nil");
    assert_eq!(tbl.get_name(demodes_sym(SP_QUOTE)), b"quote");
    assert_eq!(tbl.get_name(demodes_sym(K_CX_SHELL)), b"cx-shel");
    assert_eq!(mode_of_sym(T_T), SymbolMode::Type);
    assert_eq!(mode_of_sym(SP_QUOTE), SymbolMode::Basic);
    assert_eq!(mode_of_sym(K_CX_SHELL), SymbolMode::Keyword);
    // a second setup changes nothing
    environment_setup(&mut tbl);
    assert_eq!(tbl.len(), PREDEFINED);
}

#[test]
fn error_codes_round_trip() {
    let all = [
        SlErrCode::ErrorUnknown,
        SlErrCode::ParseUnexpectedEnd,
        SlErrCode::ParseBadSpecial,
        SlErrCode::ParseInvalidChar,
        SlErrCode::ParseInvalidString,
        SlErrCode::ParseInvalidNum,
        SlErrCode::FileCouldNotRead,
    ];
    for (i, e) in all.iter().enumerate() {
        assert_eq!(e.code(), i as u16);
        assert_eq!(SlErrCode::try_from(i as u16), Ok(*e));
    }
    assert_eq!(SlErrCode::try_from(7), Err(()));
    assert_eq!(SlErrCode::try_from(u16::MAX), Err(()));
}
