//! The symbols that every run starts with: the types of the built-in kinds,
//! the special forms and a few names of the host. Their name indices are
//! their places in the list, so interning the list into an empty table, in
//! order, gives each name the index that its constant holds.

use vstd::prelude::*;
use vstd::string::StringSliceAdditionalSpecFns;
use crate::stab::{Stab, spec_intern, lemma_intern_keeps};
use crate::symbol::NAME_SPACE;

verus! {

/// How many symbols are predefined.
pub const PREDEFINED: usize = 55;

/// The symbol `$t`.
pub const T_T: u32 = 0xC000_0000;

/// The symbol `$nil`.
pub const T_NIL: u32 = 0xC000_0001;

/// The symbol `$bool`.
pub const T_BOOL: u32 = 0xC000_0002;

/// The symbol `$u8`.
pub const T_U8: u32 = 0xC000_0003;

/// The symbol `$i8`.
pub const T_I8: u32 = 0xC000_0004;

/// The symbol `$u16`.
pub const T_U16: u32 = 0xC000_0005;

/// The symbol `$i16`.
pub const T_I16: u32 = 0xC000_0006;

/// The symbol `$u32`.
pub const T_U32: u32 = 0xC000_0007;

/// The symbol `$i32`.
pub const T_I32: u32 = 0xC000_0008;

/// The symbol `$u64`.
pub const T_U64: u32 = 0xC000_0009;

/// The symbol `$i64`.
pub const T_I64: u32 = 0xC000_000A;

/// The symbol `$u128`.
pub const T_U128: u32 = 0xC000_000B;

/// The symbol `$i128`.
pub const T_I128: u32 = 0xC000_000C;

/// The symbol `$f32`.
pub const T_F32: u32 = 0xC000_000D;

/// The symbol `$f64`.
pub const T_F64: u32 = 0xC000_000E;

/// The symbol `$symbol`.
pub const T_SYMBOL: u32 = 0xC000_000F;

/// The symbol `$ref`.
pub const T_REF: u32 = 0xC000_0010;

/// The symbol `$vector`.
pub const T_VECTOR: u32 = 0xC000_0011;

/// The symbol `$stdvec`.
pub const T_STDVEC: u32 = 0xC000_0012;

/// The symbol `$string`.
pub const T_STRING: u32 = 0xC000_0013;

/// The symbol `$hashvec`.
pub const T_HASHVEC: u32 = 0xC000_0014;

/// The symbol `$anyvec`.
pub const T_ANYVEC: u32 = 0xC000_0015;

/// The symbol `$map`.
pub const T_MAP: u32 = 0xC000_0016;

/// The symbol `$alismap`.
pub const T_ALISMAP: u32 = 0xC000_0017;

/// The symbol `$hashmap`.
pub const T_HASHMAP: u32 = 0xC000_0018;

/// The symbol `$proc`.
pub const T_PROC: u32 = 0xC000_0019;

/// The symbol `$sail-fn`.
pub const T_PROC_LAMBDA: u32 = 0xC000_001A;

/// The symbol `$rust-fn`.
pub const T_PROC_NATIVE: u32 = 0xC000_001B;

/// The symbol `$err`.
pub const T_ERR: u32 = 0xC000_001C;

/// The symbol `$q-tx`.
pub const T_QUEUE_TX: u32 = 0xC000_001D;

/// The symbol `$q-rx`.
pub const T_QUEUE_RX: u32 = 0xC000_001E;

/// The symbol `def`.
pub const SP_DEF: u32 = 0x0000_001F;

/// The symbol `do`.
pub const SP_DO: u32 = 0x0000_0020;

/// The symbol `eval`.
pub const SP_EVAL: u32 = 0x0000_0021;

/// The symbol `fn`.
pub const SP_FN: u32 = 0x0000_0022;

/// The symbol `if`.
pub const SP_IF: u32 = 0x0000_0023;

/// The symbol `quote`.
pub const SP_QUOTE: u32 = 0x0000_0024;

/// The symbol `set`.
pub const SP_SET: u32 = 0x0000_0025;

/// The symbol `while`.
pub const SP_WHILE: u32 = 0x0000_0026;

/// The symbol `mr-send`.
pub const S_MR_SEND: u32 = 0x0000_0027;

/// The symbol `mr-recv`.
pub const S_MR_RECV: u32 = 0x0000_0028;

/// The symbol `cm-send`.
pub const S_CM_SEND: u32 = 0x0000_0029;

/// The symbol `cm-recv`.
pub const S_CM_RECV: u32 = 0x0000_002A;

/// The symbol `cr-send`.
pub const S_CR_SEND: u32 = 0x0000_002B;

/// The symbol `cr-recv`.
pub const S_CR_RECV: u32 = 0x0000_002C;

/// The symbol `main`.
pub const S_MAIN: u32 = 0x0000_002D;

/// The symbol `window`.
pub const S_WINDOW: u32 = 0x0000_002E;

/// The symbol `rndr`.
pub const S_RNDR: u32 = 0x0000_002F;

/// The symbol `engine`.
pub const S_ENGINE: u32 = 0x0000_0030;

/// The symbol `%true`.
pub const S_T_INTERN: u32 = 0x0000_0031;

/// The symbol `:cx-dstr`.
pub const K_CX_DESTR: u32 = 0x4000_0032;

/// The symbol `:cx-resz`.
pub const K_CX_RESIZ: u32 = 0x4000_0033;

/// The symbol `:cx-clck`.
pub const K_CX_CLICK: u32 = 0x4000_0034;

/// The symbol `:cx-rdrw`.
pub const K_CX_REDRW: u32 = 0x4000_0035;

/// The symbol `:cx-shel`.
pub const K_CX_SHELL: u32 = 0x4000_0036;

/// The name of the predefined symbol with the name index `i`.
pub open spec fn spec_predefined_name(i: int) -> Seq<u8> {
    if i == 0 {
        "t".spec_bytes()
    } else if i == 1 {
        "nil".spec_bytes()
    } else if i == 2 {
        "bool".spec_bytes()
    } else if i == 3 {
        "u8".spec_bytes()
    } else if i == 4 {
        "i8".spec_bytes()
    } else if i == 5 {
        "u16".spec_bytes()
    } else if i == 6 {
        "i16".spec_bytes()
    } else if i == 7 {
        "u32".spec_bytes()
    } else if i == 8 {
        "i32".spec_bytes()
    } else if i == 9 {
        "u64".spec_bytes()
    } else if i == 10 {
        "i64".spec_bytes()
    } else if i == 11 {
        "u128".spec_bytes()
    } else if i == 12 {
        "i128".spec_bytes()
    } else if i == 13 {
        "f32".spec_bytes()
    } else if i == 14 {
        "f64".spec_bytes()
    } else if i == 15 {
        "symbol".spec_bytes()
    } else if i == 16 {
        "ref".spec_bytes()
    } else if i == 17 {
        "vector".spec_bytes()
    } else if i == 18 {
        "stdvec".spec_bytes()
    } else if i == 19 {
        "string".spec_bytes()
    } else if i == 20 {
        "hashvec".spec_bytes()
    } else if i == 21 {
        "anyvec".spec_bytes()
    } else if i == 22 {
        "map".spec_bytes()
    } else if i == 23 {
        "alismap".spec_bytes()
    } else if i == 24 {
        "hashmap".spec_bytes()
    } else if i == 25 {
        "proc".spec_bytes()
    } else if i == 26 {
        "sail-fn".spec_bytes()
    } else if i == 27 {
        "rust-fn".spec_bytes()
    } else if i == 28 {
        "err".spec_bytes()
    } else if i == 29 {
        "q-tx".spec_bytes()
    } else if i == 30 {
        "q-rx".spec_bytes()
    } else if i == 31 {
        "def".spec_bytes()
    } else if i == 32 {
        "do".spec_bytes()
    } else if i == 33 {
        "eval".spec_bytes()
    } else if i == 34 {
        "fn".spec_bytes()
    } else if i == 35 {
        "if".spec_bytes()
    } else if i == 36 {
        "quote".spec_bytes()
    } else if i == 37 {
        "set".spec_bytes()
    } else if i == 38 {
        "while".spec_bytes()
    } else if i == 39 {
        "mr-send".spec_bytes()
    } else if i == 40 {
        "mr-recv".spec_bytes()
    } else if i == 41 {
        "cm-send".spec_bytes()
    } else if i == 42 {
        "cm-recv".spec_bytes()
    } else if i == 43 {
        "cr-send".spec_bytes()
    } else if i == 44 {
        "cr-recv".spec_bytes()
    } else if i == 45 {
        "main".spec_bytes()
    } else if i == 46 {
        "window".spec_bytes()
    } else if i == 47 {
        "rndr".spec_bytes()
    } else if i == 48 {
        "engine".spec_bytes()
    } else if i == 49 {
        "%true".spec_bytes()
    } else if i == 50 {
        "cx-dstr".spec_bytes()
    } else if i == 51 {
        "cx-resz".spec_bytes()
    } else if i == 52 {
        "cx-clck".spec_bytes()
    } else if i == 53 {
        "cx-rdrw".spec_bytes()
    } else {
        "cx-shel".spec_bytes()
    }
}

/// The name of the predefined symbol with the name index `i`.
pub fn predefined_name(i: usize) -> (r: &'static str)
    requires
        i < PREDEFINED,
    ensures
        r.spec_bytes() == spec_predefined_name(i as int),
{
    if i == 0 {
        "t"
    } else if i == 1 {
        "nil"
    } else if i == 2 {
        "bool"
    } else if i == 3 {
        "u8"
    } else if i == 4 {
        "i8"
    } else if i == 5 {
        "u16"
    } else if i == 6 {
        "i16"
    } else if i == 7 {
        "u32"
    } else if i == 8 {
        "i32"
    } else if i == 9 {
        "u64"
    } else if i == 10 {
        "i64"
    } else if i == 11 {
        "u128"
    } else if i == 12 {
        "i128"
    } else if i == 13 {
        "f32"
    } else if i == 14 {
        "f64"
    } else if i == 15 {
        "symbol"
    } else if i == 16 {
        "ref"
    } else if i == 17 {
        "vector"
    } else if i == 18 {
        "stdvec"
    } else if i == 19 {
        "string"
    } else if i == 20 {
        "hashvec"
    } else if i == 21 {
        "anyvec"
    } else if i == 22 {
        "map"
    } else if i == 23 {
        "alismap"
    } else if i == 24 {
        "hashmap"
    } else if i == 25 {
        "proc"
    } else if i == 26 {
        "sail-fn"
    } else if i == 27 {
        "rust-fn"
    } else if i == 28 {
        "err"
    } else if i == 29 {
        "q-tx"
    } else if i == 30 {
        "q-rx"
    } else if i == 31 {
        "def"
    } else if i == 32 {
        "do"
    } else if i == 33 {
        "eval"
    } else if i == 34 {
        "fn"
    } else if i == 35 {
        "if"
    } else if i == 36 {
        "quote"
    } else if i == 37 {
        "set"
    } else if i == 38 {
        "while"
    } else if i == 39 {
        "mr-send"
    } else if i == 40 {
        "mr-recv"
    } else if i == 41 {
        "cm-send"
    } else if i == 42 {
        "cm-recv"
    } else if i == 43 {
        "cr-send"
    } else if i == 44 {
        "cr-recv"
    } else if i == 45 {
        "main"
    } else if i == 46 {
        "window"
    } else if i == 47 {
        "rndr"
    } else if i == 48 {
        "engine"
    } else if i == 49 {
        "%true"
    } else if i == 50 {
        "cx-dstr"
    } else if i == 51 {
        "cx-resz"
    } else if i == 52 {
        "cx-clck"
    } else if i == 53 {
        "cx-rdrw"
    } else {
        "cx-shel"
    }
}

/// The bytes of the predefined name with the name index `i`, one by one.
pub open spec fn predefined_bytes(i: int) -> Seq<u8> {
    if i == 0 {
        seq![116u8]
    } else if i == 1 {
        seq![110u8, 105u8, 108u8]
    } else if i == 2 {
        seq![98u8, 111u8, 111u8, 108u8]
    } else if i == 3 {
        seq![117u8, 56u8]
    } else if i == 4 {
        seq![105u8, 56u8]
    } else if i == 5 {
        seq![117u8, 49u8, 54u8]
    } else if i == 6 {
        seq![105u8, 49u8, 54u8]
    } else if i == 7 {
        seq![117u8, 51u8, 50u8]
    } else if i == 8 {
        seq![105u8, 51u8, 50u8]
    } else if i == 9 {
        seq![117u8, 54u8, 52u8]
    } else if i == 10 {
        seq![105u8, 54u8, 52u8]
    } else if i == 11 {
        seq![117u8, 49u8, 50u8, 56u8]
    } else if i == 12 {
        seq![105u8, 49u8, 50u8, 56u8]
    } else if i == 13 {
        seq![102u8, 51u8, 50u8]
    } else if i == 14 {
        seq![102u8, 54u8, 52u8]
    } else if i == 15 {
        seq![115u8, 121u8, 109u8, 98u8, 111u8, 108u8]
    } else if i == 16 {
        seq![114u8, 101u8, 102u8]
    } else if i == 17 {
        seq![118u8, 101u8, 99u8, 116u8, 111u8, 114u8]
    } else if i == 18 {
        seq![115u8, 116u8, 100u8, 118u8, 101u8, 99u8]
    } else if i == 19 {
        seq![115u8, 116u8, 114u8, 105u8, 110u8, 103u8]
    } else if i == 20 {
        seq![104u8, 97u8, 115u8, 104u8, 118u8, 101u8, 99u8]
    } else if i == 21 {
        seq![97u8, 110u8, 121u8, 118u8, 101u8, 99u8]
    } else if i == 22 {
        seq![109u8, 97u8, 112u8]
    } else if i == 23 {
        seq![97u8, 108u8, 105u8, 115u8, 109u8, 97u8, 112u8]
    } else if i == 24 {
        seq![104u8, 97u8, 115u8, 104u8, 109u8, 97u8, 112u8]
    } else if i == 25 {
        seq![112u8, 114u8, 111u8, 99u8]
    } else if i == 26 {
        seq![115u8, 97u8, 105u8, 108u8, 45u8, 102u8, 110u8]
    } else if i == 27 {
        seq![114u8, 117u8, 115u8, 116u8, 45u8, 102u8, 110u8]
    } else if i == 28 {
        seq![101u8, 114u8, 114u8]
    } else if i == 29 {
        seq![113u8, 45u8, 116u8, 120u8]
    } else if i == 30 {
        seq![113u8, 45u8, 114u8, 120u8]
    } else if i == 31 {
        seq![100u8, 101u8, 102u8]
    } else if i == 32 {
        seq![100u8, 111u8]
    } else if i == 33 {
        seq![101u8, 118u8, 97u8, 108u8]
    } else if i == 34 {
        seq![102u8, 110u8]
    } else if i == 35 {
        seq![105u8, 102u8]
    } else if i == 36 {
        seq![113u8, 117u8, 111u8, 116u8, 101u8]
    } else if i == 37 {
        seq![115u8, 101u8, 116u8]
    } else if i == 38 {
        seq![119u8, 104u8, 105u8, 108u8, 101u8]
    } else if i == 39 {
        seq![109u8, 114u8, 45u8, 115u8, 101u8, 110u8, 100u8]
    } else if i == 40 {
        seq![109u8, 114u8, 45u8, 114u8, 101u8, 99u8, 118u8]
    } else if i == 41 {
        seq![99u8, 109u8, 45u8, 115u8, 101u8, 110u8, 100u8]
    } else if i == 42 {
        seq![99u8, 109u8, 45u8, 114u8, 101u8, 99u8, 118u8]
    } else if i == 43 {
        seq![99u8, 114u8, 45u8, 115u8, 101u8, 110u8, 100u8]
    } else if i == 44 {
        seq![99u8, 114u8, 45u8, 114u8, 101u8, 99u8, 118u8]
    } else if i == 45 {
        seq![109u8, 97u8, 105u8, 110u8]
    } else if i == 46 {
        seq![119u8, 105u8, 110u8, 100u8, 111u8, 119u8]
    } else if i == 47 {
        seq![114u8, 110u8, 100u8, 114u8]
    } else if i == 48 {
        seq![101u8, 110u8, 103u8, 105u8, 110u8, 101u8]
    } else if i == 49 {
        seq![37u8, 116u8, 114u8, 117u8, 101u8]
    } else if i == 50 {
        seq![99u8, 120u8, 45u8, 100u8, 115u8, 116u8, 114u8]
    } else if i == 51 {
        seq![99u8, 120u8, 45u8, 114u8, 101u8, 115u8, 122u8]
    } else if i == 52 {
        seq![99u8, 120u8, 45u8, 99u8, 108u8, 99u8, 107u8]
    } else if i == 53 {
        seq![99u8, 120u8, 45u8, 114u8, 100u8, 114u8, 119u8]
    } else {
        seq![99u8, 120u8, 45u8, 115u8, 104u8, 101u8, 108u8]
    }
}

/// No two predefined names are the same.
pub proof fn lemma_predefined_distinct(i: int, j: int)
    requires
        0 <= i < j < PREDEFINED,
    ensures
        spec_predefined_name(i) != spec_predefined_name(j),
{
    lemma_predefined_bytes(i);
    lemma_predefined_bytes(j);
    let a = predefined_bytes(i);
    let b = predefined_bytes(j);
    assert(a.len() != b.len() || a[0] != b[0] || (a.len() > 1 && a[1] != b[1]) || (a.len() > 2
        && a[2] != b[2]) || (a.len() > 3 && a[3] != b[3]) || (a.len() > 4 && a[4] != b[4]) || (
    a.len() > 5 && a[5] != b[5]) || (a.len() > 6 && a[6] != b[6]));
}

/// The bytes of each predefined name.
pub proof fn lemma_predefined_bytes(i: int)
    requires
        0 <= i < PREDEFINED,
    ensures
        spec_predefined_name(i) == predefined_bytes(i),
{
    broadcast use vstd::string::is_ascii_spec_bytes;
    reveal_strlit("t");
    reveal_strlit("nil");
    reveal_strlit("bool");
    reveal_strlit("u8");
    reveal_strlit("i8");
    reveal_strlit("u16");
    reveal_strlit("i16");
    reveal_strlit("u32");
    reveal_strlit("i32");
    reveal_strlit("u64");
    reveal_strlit("i64");
    reveal_strlit("u128");
    reveal_strlit("i128");
    reveal_strlit("f32");
    reveal_strlit("f64");
    reveal_strlit("symbol");
    reveal_strlit("ref");
    reveal_strlit("vector");
    reveal_strlit("stdvec");
    reveal_strlit("string");
    reveal_strlit("hashvec");
    reveal_strlit("anyvec");
    reveal_strlit("map");
    reveal_strlit("alismap");
    reveal_strlit("hashmap");
    reveal_strlit("proc");
    reveal_strlit("sail-fn");
    reveal_strlit("rust-fn");
    reveal_strlit("err");
    reveal_strlit("q-tx");
    reveal_strlit("q-rx");
    reveal_strlit("def");
    reveal_strlit("do");
    reveal_strlit("eval");
    reveal_strlit("fn");
    reveal_strlit("if");
    reveal_strlit("quote");
    reveal_strlit("set");
    reveal_strlit("while");
    reveal_strlit("mr-send");
    reveal_strlit("mr-recv");
    reveal_strlit("cm-send");
    reveal_strlit("cm-recv");
    reveal_strlit("cr-send");
    reveal_strlit("cr-recv");
    reveal_strlit("main");
    reveal_strlit("window");
    reveal_strlit("rndr");
    reveal_strlit("engine");
    reveal_strlit("%true");
    reveal_strlit("cx-dstr");
    reveal_strlit("cx-resz");
    reveal_strlit("cx-clck");
    reveal_strlit("cx-rdrw");
    reveal_strlit("cx-shel");
    if i == 0 {
        assert(vstd::string::is_ascii("t"));
        assert("t".spec_bytes() =~= predefined_bytes(0));
    }
    if i == 1 {
        assert(vstd::string::is_ascii("nil"));
        assert("nil".spec_bytes() =~= predefined_bytes(1));
    }
    if i == 2 {
        assert(vstd::string::is_ascii("bool"));
        assert("bool".spec_bytes() =~= predefined_bytes(2));
    }
    if i == 3 {
        assert(vstd::string::is_ascii("u8"));
        assert("u8".spec_bytes() =~= predefined_bytes(3));
    }
    if i == 4 {
        assert(vstd::string::is_ascii("i8"));
        assert("i8".spec_bytes() =~= predefined_bytes(4));
    }
    if i == 5 {
        assert(vstd::string::is_ascii("u16"));
        assert("u16".spec_bytes() =~= predefined_bytes(5));
    }
    if i == 6 {
        assert(vstd::string::is_ascii("i16"));
        assert("i16".spec_bytes() =~= predefined_bytes(6));
    }
    if i == 7 {
        assert(vstd::string::is_ascii("u32"));
        assert("u32".spec_bytes() =~= predefined_bytes(7));
    }
    if i == 8 {
        assert(vstd::string::is_ascii("i32"));
        assert("i32".spec_bytes() =~= predefined_bytes(8));
    }
    if i == 9 {
        assert(vstd::string::is_ascii("u64"));
        assert("u64".spec_bytes() =~= predefined_bytes(9));
    }
    if i == 10 {
        assert(vstd::string::is_ascii("i64"));
        assert("i64".spec_bytes() =~= predefined_bytes(10));
    }
    if i == 11 {
        assert(vstd::string::is_ascii("u128"));
        assert("u128".spec_bytes() =~= predefined_bytes(11));
    }
    if i == 12 {
        assert(vstd::string::is_ascii("i128"));
        assert("i128".spec_bytes() =~= predefined_bytes(12));
    }
    if i == 13 {
        assert(vstd::string::is_ascii("f32"));
        assert("f32".spec_bytes() =~= predefined_bytes(13));
    }
    if i == 14 {
        assert(vstd::string::is_ascii("f64"));
        assert("f64".spec_bytes() =~= predefined_bytes(14));
    }
    if i == 15 {
        assert(vstd::string::is_ascii("symbol"));
        assert("symbol".spec_bytes() =~= predefined_bytes(15));
    }
    if i == 16 {
        assert(vstd::string::is_ascii("ref"));
        assert("ref".spec_bytes() =~= predefined_bytes(16));
    }
    if i == 17 {
        assert(vstd::string::is_ascii("vector"));
        assert("vector".spec_bytes() =~= predefined_bytes(17));
    }
    if i == 18 {
        assert(vstd::string::is_ascii("stdvec"));
        assert("stdvec".spec_bytes() =~= predefined_bytes(18));
    }
    if i == 19 {
        assert(vstd::string::is_ascii("string"));
        assert("string".spec_bytes() =~= predefined_bytes(19));
    }
    if i == 20 {
        assert(vstd::string::is_ascii("hashvec"));
        assert("hashvec".spec_bytes() =~= predefined_bytes(20));
    }
    if i == 21 {
        assert(vstd::string::is_ascii("anyvec"));
        assert("anyvec".spec_bytes() =~= predefined_bytes(21));
    }
    if i == 22 {
        assert(vstd::string::is_ascii("map"));
        assert("map".spec_bytes() =~= predefined_bytes(22));
    }
    if i == 23 {
        assert(vstd::string::is_ascii("alismap"));
        assert("alismap".spec_bytes() =~= predefined_bytes(23));
    }
    if i == 24 {
        assert(vstd::string::is_ascii("hashmap"));
        assert("hashmap".spec_bytes() =~= predefined_bytes(24));
    }
    if i == 25 {
        assert(vstd::string::is_ascii("proc"));
        assert("proc".spec_bytes() =~= predefined_bytes(25));
    }
    if i == 26 {
        assert(vstd::string::is_ascii("sail-fn"));
        assert("sail-fn".spec_bytes() =~= predefined_bytes(26));
    }
    if i == 27 {
        assert(vstd::string::is_ascii("rust-fn"));
        assert("rust-fn".spec_bytes() =~= predefined_bytes(27));
    }
    if i == 28 {
        assert(vstd::string::is_ascii("err"));
        assert("err".spec_bytes() =~= predefined_bytes(28));
    }
    if i == 29 {
        assert(vstd::string::is_ascii("q-tx"));
        assert("q-tx".spec_bytes() =~= predefined_bytes(29));
    }
    if i == 30 {
        assert(vstd::string::is_ascii("q-rx"));
        assert("q-rx".spec_bytes() =~= predefined_bytes(30));
    }
    if i == 31 {
        assert(vstd::string::is_ascii("def"));
        assert("def".spec_bytes() =~= predefined_bytes(31));
    }
    if i == 32 {
        assert(vstd::string::is_ascii("do"));
        assert("do".spec_bytes() =~= predefined_bytes(32));
    }
    if i == 33 {
        assert(vstd::string::is_ascii("eval"));
        assert("eval".spec_bytes() =~= predefined_bytes(33));
    }
    if i == 34 {
        assert(vstd::string::is_ascii("fn"));
        assert("fn".spec_bytes() =~= predefined_bytes(34));
    }
    if i == 35 {
        assert(vstd::string::is_ascii("if"));
        assert("if".spec_bytes() =~= predefined_bytes(35));
    }
    if i == 36 {
        assert(vstd::string::is_ascii("quote"));
        assert("quote".spec_bytes() =~= predefined_bytes(36));
    }
    if i == 37 {
        assert(vstd::string::is_ascii("set"));
        assert("set".spec_bytes() =~= predefined_bytes(37));
    }
    if i == 38 {
        assert(vstd::string::is_ascii("while"));
        assert("while".spec_bytes() =~= predefined_bytes(38));
    }
    if i == 39 {
        assert(vstd::string::is_ascii("mr-send"));
        assert("mr-send".spec_bytes() =~= predefined_bytes(39));
    }
    if i == 40 {
        assert(vstd::string::is_ascii("mr-recv"));
        assert("mr-recv".spec_bytes() =~= predefined_bytes(40));
    }
    if i == 41 {
        assert(vstd::string::is_ascii("cm-send"));
        assert("cm-send".spec_bytes() =~= predefined_bytes(41));
    }
    if i == 42 {
        assert(vstd::string::is_ascii("cm-recv"));
        assert("cm-recv".spec_bytes() =~= predefined_bytes(42));
    }
    if i == 43 {
        assert(vstd::string::is_ascii("cr-send"));
        assert("cr-send".spec_bytes() =~= predefined_bytes(43));
    }
    if i == 44 {
        assert(vstd::string::is_ascii("cr-recv"));
        assert("cr-recv".spec_bytes() =~= predefined_bytes(44));
    }
    if i == 45 {
        assert(vstd::string::is_ascii("main"));
        assert("main".spec_bytes() =~= predefined_bytes(45));
    }
    if i == 46 {
        assert(vstd::string::is_ascii("window"));
        assert("window".spec_bytes() =~= predefined_bytes(46));
    }
    if i == 47 {
        assert(vstd::string::is_ascii("rndr"));
        assert("rndr".spec_bytes() =~= predefined_bytes(47));
    }
    if i == 48 {
        assert(vstd::string::is_ascii("engine"));
        assert("engine".spec_bytes() =~= predefined_bytes(48));
    }
    if i == 49 {
        assert(vstd::string::is_ascii("%true"));
        assert("%true".spec_bytes() =~= predefined_bytes(49));
    }
    if i == 50 {
        assert(vstd::string::is_ascii("cx-dstr"));
        assert("cx-dstr".spec_bytes() =~= predefined_bytes(50));
    }
    if i == 51 {
        assert(vstd::string::is_ascii("cx-resz"));
        assert("cx-resz".spec_bytes() =~= predefined_bytes(51));
    }
    if i == 52 {
        assert(vstd::string::is_ascii("cx-clck"));
        assert("cx-clck".spec_bytes() =~= predefined_bytes(52));
    }
    if i == 53 {
        assert(vstd::string::is_ascii("cx-rdrw"));
        assert("cx-rdrw".spec_bytes() =~= predefined_bytes(53));
    }
    if i == 54 {
        assert(vstd::string::is_ascii("cx-shel"));
        assert("cx-shel".spec_bytes() =~= predefined_bytes(54));
    }
}

/// The table after the first `n` predefined names were interned into
/// `table`, in order.
pub open spec fn spec_setup(table: Seq<Seq<u8>>, n: nat) -> Seq<Seq<u8>>
    decreases n,
{
    if n == 0 {
        table
    } else {
        let before = spec_setup(table, (n - 1) as nat);
        match spec_intern(before, spec_predefined_name(n - 1)) {
            Some((id, after)) => after,
            None => before,
        }
    }
}

/// Interning the predefined names keeps a table well-formed and adds at most
/// one name for each.
pub proof fn lemma_setup(table: Seq<Seq<u8>>, n: nat)
    requires
        crate::stab::distinct(table),
        table.len() + n <= NAME_SPACE,
    ensures
        crate::stab::distinct(spec_setup(table, n)),
        table.len() <= spec_setup(table, n).len() <= table.len() + n,
        n > 0 ==> spec_setup(table, n).contains(spec_predefined_name(n - 1)),
    decreases n,
{
    if n > 0 {
        lemma_setup(table, (n - 1) as nat);
        let before = spec_setup(table, (n - 1) as nat);
        lemma_intern_keeps(before, spec_predefined_name(n - 1));
    }
}

/// Interned into an empty table, each predefined name gets the name index
/// that its place in the list gives it.
pub proof fn lemma_setup_fresh(n: nat)
    requires
        n <= PREDEFINED,
    ensures
        spec_setup(Seq::empty(), n).len() == n,
        forall|i: int|
            0 <= i < n ==> (#[trigger] spec_setup(Seq::empty(), n)[i]) == spec_predefined_name(i),
    decreases n,
{
    if n > 0 {
        lemma_setup_fresh((n - 1) as nat);
        let before = spec_setup(Seq::empty(), (n - 1) as nat);
        let name = spec_predefined_name(n - 1);
        assert(!before.contains(name)) by {
            if before.contains(name) {
                let k = choose|k: int| 0 <= k < before.len() && before[k] == name;
                lemma_predefined_distinct(k, n - 1);
            }
        }
    }
}

/// Interns the predefined symbols, in the order of their name indices.
pub fn environment_setup(tbl: &mut Stab)
    requires
        old(tbl).wf(),
        old(tbl)@.len() + PREDEFINED <= NAME_SPACE,
    ensures
        final(tbl).wf(),
        old(tbl)@.is_prefix_of(final(tbl)@),
        final(tbl)@ == spec_setup(old(tbl)@, PREDEFINED as nat),
        old(tbl)@.len() <= final(tbl)@.len() <= old(tbl)@.len() + PREDEFINED,
        old(tbl)@.len() == 0 ==> final(tbl)@.len() == PREDEFINED && forall|i: int|
            0 <= i < PREDEFINED ==> (#[trigger] final(tbl)@[i]) == spec_predefined_name(i),
{
    proof {
        if old(tbl)@.len() == 0 {
            assert(old(tbl)@ =~= Seq::<Seq<u8>>::empty());
            lemma_setup_fresh(PREDEFINED as nat);
        }
    }
    let mut i: usize = 0;
    while i < PREDEFINED
        invariant
            i <= PREDEFINED,
            tbl.wf(),
            old(tbl).wf(),
            old(tbl)@.len() + PREDEFINED <= NAME_SPACE,
            tbl@ == spec_setup(old(tbl)@, i as nat),
            old(tbl)@.is_prefix_of(tbl@),
            old(tbl)@.len() <= tbl@.len() <= old(tbl)@.len() + i,
        decreases PREDEFINED - i,
    {
        let name: &'static str = predefined_name(i);
        let ghost before = tbl@;
        proof {
            lemma_intern_keeps(tbl@, name.spec_bytes());
        }
        let id = tbl.try_get_id(name.as_bytes());
        proof {
            crate::stab::lemma_prefix_trans(old(tbl)@, before, tbl@);
        }
        i += 1;
    }
}

} // verus!
