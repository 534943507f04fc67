//! The tree data model: `Kind`, `Key`, `Value`, `ValueCandidate`, `NodeTree`.

use vstd::prelude::*;

use crate::hash::{hash_chars, HASH_OFFSET_BASIS};
use crate::Error;

verus! {

/// The closed enumeration of primitive document shapes.
///
/// Each variant maps one-to-one to a fixed content hash of its name; the
/// mapping is part of the wire format and must stay stable forever.
#[derive(Copy, Clone, Debug, PartialEq, Eq, PartialOrd, Ord, Hash, Structural)]
pub enum Kind {
    Null,
    Bool,
    I64,
    U64,
    F64,
    Text,
    Array,
    Object,
}

impl Kind {
    /// The name of a variant.
    pub open spec fn spec_name(self) -> Seq<char> {
        match self {
            Kind::Null => "Null"@,
            Kind::Bool => "Bool"@,
            Kind::I64 => "I64"@,
            Kind::U64 => "U64"@,
            Kind::F64 => "F64"@,
            Kind::Text => "Text"@,
            Kind::Array => "Array"@,
            Kind::Object => "Object"@,
        }
    }

    /// The content hash a variant maps to: the digest of its name.
    pub open spec fn spec_hash(self) -> crate::hash::Hash {
        crate::hash::Hash::spec_of(self.spec_name())
    }

    pub fn as_static_str(&self) -> (s: &'static str)
        ensures
            s@ == self.spec_name(),
    {
        match self {
            Kind::Null => "Null",
            Kind::Bool => "Bool",
            Kind::I64 => "I64",
            Kind::U64 => "U64",
            Kind::F64 => "F64",
            Kind::Text => "Text",
            Kind::Array => "Array",
            Kind::Object => "Object",
        }
    }

    /// The name of a variant, as an owned string.
    pub fn to_string(&self) -> (s: String)
        ensures
            s@ == self.spec_name(),
    {
        self.as_static_str().to_owned()
    }
}

/// The variant whose name is the given text, if any.
pub open spec fn kind_of_name(s: Seq<char>) -> Option<Kind> {
    if s == "Null"@ {
        Some(Kind::Null)
    } else if s == "Bool"@ {
        Some(Kind::Bool)
    } else if s == "I64"@ {
        Some(Kind::I64)
    } else if s == "U64"@ {
        Some(Kind::U64)
    } else if s == "F64"@ {
        Some(Kind::F64)
    } else if s == "Text"@ {
        Some(Kind::Text)
    } else if s == "Array"@ {
        Some(Kind::Array)
    } else if s == "Object"@ {
        Some(Kind::Object)
    } else {
        None
    }
}

/// The variant whose name hashes to the given content hash, if any.
pub open spec fn kind_of_hash(h: crate::hash::Hash) -> Option<Kind> {
    if h == Kind::Null.spec_hash() {
        Some(Kind::Null)
    } else if h == Kind::Bool.spec_hash() {
        Some(Kind::Bool)
    } else if h == Kind::I64.spec_hash() {
        Some(Kind::I64)
    } else if h == Kind::U64.spec_hash() {
        Some(Kind::U64)
    } else if h == Kind::F64.spec_hash() {
        Some(Kind::F64)
    } else if h == Kind::Text.spec_hash() {
        Some(Kind::Text)
    } else if h == Kind::Array.spec_hash() {
        Some(Kind::Array)
    } else if h == Kind::Object.spec_hash() {
        Some(Kind::Object)
    } else {
        None
    }
}

impl Kind {
    /// Parse a variant from its name; fails with the offending name.
    pub fn from_str(s: &str) -> (r: Result<Kind, Error>)
        ensures
            match r {
                Ok(k) => kind_of_name(s@) == Some(k),
                Err(e) => kind_of_name(s@) is None && (e matches Error::UnknownKindName(t)
                    && t@ == s@),
            },
    {
        let t: String = s.to_owned();
        if t == "Null".to_owned() {
            Ok(Kind::Null)
        } else if t == "Bool".to_owned() {
            Ok(Kind::Bool)
        } else if t == "I64".to_owned() {
            Ok(Kind::I64)
        } else if t == "U64".to_owned() {
            Ok(Kind::U64)
        } else if t == "F64".to_owned() {
            Ok(Kind::F64)
        } else if t == "Text".to_owned() {
            Ok(Kind::Text)
        } else if t == "Array".to_owned() {
            Ok(Kind::Array)
        } else if t == "Object".to_owned() {
            Ok(Kind::Object)
        } else {
            Err(Error::UnknownKindName(t))
        }
    }

    /// Parse a variant back from its content hash; an unrecognized hash is a
    /// typed failure carrying the offending hash, never a silent default.
    pub fn try_from(value: crate::hash::Hash) -> (r: Result<Kind, Error>)
        ensures
            match r {
                Ok(k) => kind_of_hash(value) == Some(k),
                Err(e) => kind_of_hash(value) is None && (e matches Error::UnknownKindHash(h)
                    && h == value),
            },
    {
        if value == crate::hash::Hash::with_str("Null") {
            Ok(Kind::Null)
        } else if value == crate::hash::Hash::with_str("Bool") {
            Ok(Kind::Bool)
        } else if value == crate::hash::Hash::with_str("I64") {
            Ok(Kind::I64)
        } else if value == crate::hash::Hash::with_str("U64") {
            Ok(Kind::U64)
        } else if value == crate::hash::Hash::with_str("F64") {
            Ok(Kind::F64)
        } else if value == crate::hash::Hash::with_str("Text") {
            Ok(Kind::Text)
        } else if value == crate::hash::Hash::with_str("Array") {
            Ok(Kind::Array)
        } else if value == crate::hash::Hash::with_str("Object") {
            Ok(Kind::Object)
        } else {
            Err(Error::UnknownKindHash(value))
        }
    }
}

impl From<Kind> for crate::hash::Hash {
    /// The fixed content hash of a variant: the digest of its name.
    fn from(value: Kind) -> (h: crate::hash::Hash) {
        crate::hash::Hash::with_str(value.as_static_str())
    }
}

impl vstd::std_specs::convert::FromSpecImpl<Kind> for crate::hash::Hash {
    open spec fn obeys_from_spec() -> bool {
        true
    }

    open spec fn from_spec(value: Kind) -> crate::hash::Hash {
        value.spec_hash()
    }
}

proof fn lemma_name_hash_null()
    ensures
        hash_chars("Null"@) == 0xf256fa811dd035bc,
{
    reveal_strlit("Null");
    let s0 = Seq::<char>::empty();
    assert(hash_chars(s0) == HASH_OFFSET_BASIS);
    let s1 = s0.push('N');
    crate::hash::lemma_hash_push(s0, 'N');
    assert('N' as u64 == 78);
    assert(vstd::wrapping::u64_specs::wrapping_mul(0xcbf29ce484222325, 0x100000001b3) == 0xaf63bd4c8601b7df) by (nonlinear_arith);
    assert(vstd::wrapping::u64_specs::wrapping_add(0xaf63bd4c8601b7df, 78) == 0xaf63bd4c8601b82d) by (nonlinear_arith);
    assert(hash_chars(s1) == 0xaf63bd4c8601b82d);
    let s2 = s1.push('u');
    crate::hash::lemma_hash_push(s1, 'u');
    assert('u' as u64 == 117);
    assert(vstd::wrapping::u64_specs::wrapping_mul(0xaf63bd4c8601b82d, 0x100000001b3) == 0x0832d607b4ebf477) by (nonlinear_arith);
    assert(vstd::wrapping::u64_specs::wrapping_add(0x0832d607b4ebf477, 117) == 0x0832d607b4ebf4ec) by (nonlinear_arith);
    assert(hash_chars(s2) == 0x0832d607b4ebf4ec);
    let s3 = s2.push('l');
    crate::hash::lemma_hash_push(s2, 'l');
    assert('l' as u64 == 108);
    assert(vstd::wrapping::u64_specs::wrapping_mul(0x0832d607b4ebf4ec, 0x100000001b3) == 0xda569b186cf12d04) by (nonlinear_arith);
    assert(vstd::wrapping::u64_specs::wrapping_add(0xda569b186cf12d04, 108) == 0xda569b186cf12d70) by (nonlinear_arith);
    assert(hash_chars(s3) == 0xda569b186cf12d70);
    let s4 = s3.push('l');
    crate::hash::lemma_hash_push(s3, 'l');
    assert('l' as u64 == 108);
    assert(vstd::wrapping::u64_specs::wrapping_mul(0xda569b186cf12d70, 0x100000001b3) == 0xf256fa811dd03550) by (nonlinear_arith);
    assert(vstd::wrapping::u64_specs::wrapping_add(0xf256fa811dd03550, 108) == 0xf256fa811dd035bc) by (nonlinear_arith);
    assert(hash_chars(s4) == 0xf256fa811dd035bc);
    assert("Null"@ =~= s4);
}

proof fn lemma_name_hash_bool()
    ensures
        hash_chars("Bool"@) == 0x8a50d580e2def7db,
{
    reveal_strlit("Bool");
    let s0 = Seq::<char>::empty();
    assert(hash_chars(s0) == HASH_OFFSET_BASIS);
    let s1 = s0.push('B');
    crate::hash::lemma_hash_push(s0, 'B');
    assert('B' as u64 == 66);
    assert(vstd::wrapping::u64_specs::wrapping_mul(0xcbf29ce484222325, 0x100000001b3) == 0xaf63bd4c8601b7df) by (nonlinear_arith);
    assert(vstd::wrapping::u64_specs::wrapping_add(0xaf63bd4c8601b7df, 66) == 0xaf63bd4c8601b821) by (nonlinear_arith);
    assert(hash_chars(s1) == 0xaf63bd4c8601b821);
    let s2 = s1.push('o');
    crate::hash::lemma_hash_push(s1, 'o');
    assert('o' as u64 == 111);
    assert(vstd::wrapping::u64_specs::wrapping_mul(0xaf63bd4c8601b821, 0x100000001b3) == 0x0832ca07b4ebe013) by (nonlinear_arith);
    assert(vstd::wrapping::u64_specs::wrapping_add(0x0832ca07b4ebe013, 111) == 0x0832ca07b4ebe082) by (nonlinear_arith);
    assert(hash_chars(s2) == 0x0832ca07b4ebe082);
    let s3 = s2.push('o');
    crate::hash::lemma_hash_push(s2, 'o');
    assert('o' as u64 == 111);
    assert(vstd::wrapping::u64_specs::wrapping_mul(0x0832ca07b4ebe082, 0x100000001b3) == 0xda2dcd186cce7ce6) by (nonlinear_arith);
    assert(vstd::wrapping::u64_specs::wrapping_add(0xda2dcd186cce7ce6, 111) == 0xda2dcd186cce7d55) by (nonlinear_arith);
    assert(hash_chars(s3) == 0xda2dcd186cce7d55);
    let s4 = s3.push('l');
    crate::hash::lemma_hash_push(s3, 'l');
    assert('l' as u64 == 108);
    assert(vstd::wrapping::u64_specs::wrapping_mul(0xda2dcd186cce7d55, 0x100000001b3) == 0x8a50d580e2def76f) by (nonlinear_arith);
    assert(vstd::wrapping::u64_specs::wrapping_add(0x8a50d580e2def76f, 108) == 0x8a50d580e2def7db) by (nonlinear_arith);
    assert(hash_chars(s4) == 0x8a50d580e2def7db);
    assert("Bool"@ =~= s4);
}

proof fn lemma_name_hash_i64()
    ensures
        hash_chars("I64"@) == 0xda455e186ce2525e,
{
    reveal_strlit("I64");
    let s0 = Seq::<char>::empty();
    assert(hash_chars(s0) == HASH_OFFSET_BASIS);
    let s1 = s0.push('I');
    crate::hash::lemma_hash_push(s0, 'I');
    assert('I' as u64 == 73);
    assert(vstd::wrapping::u64_specs::wrapping_mul(0xcbf29ce484222325, 0x100000001b3) == 0xaf63bd4c8601b7df) by (nonlinear_arith);
    assert(vstd::wrapping::u64_specs::wrapping_add(0xaf63bd4c8601b7df, 73) == 0xaf63bd4c8601b828) by (nonlinear_arith);
    assert(hash_chars(s1) == 0xaf63bd4c8601b828);
    let s2 = s1.push('6');
    crate::hash::lemma_hash_push(s1, '6');
    assert('6' as u64 == 54);
    assert(vstd::wrapping::u64_specs::wrapping_mul(0xaf63bd4c8601b828, 0x100000001b3) == 0x0832d107b4ebebf8) by (nonlinear_arith);
    assert(vstd::wrapping::u64_specs::wrapping_add(0x0832d107b4ebebf8, 54) == 0x0832d107b4ebec2e) by (nonlinear_arith);
    assert(hash_chars(s2) == 0x0832d107b4ebec2e);
    let s3 = s2.push('4');
    crate::hash::lemma_hash_push(s2, '4');
    assert('4' as u64 == 52);
    assert(vstd::wrapping::u64_specs::wrapping_mul(0x0832d107b4ebec2e, 0x100000001b3) == 0xda455e186ce2522a) by (nonlinear_arith);
    assert(vstd::wrapping::u64_specs::wrapping_add(0xda455e186ce2522a, 52) == 0xda455e186ce2525e) by (nonlinear_arith);
    assert(hash_chars(s3) == 0xda455e186ce2525e);
    assert("I64"@ =~= s3);
}

proof fn lemma_name_hash_u64()
    ensures
        hash_chars("U64"@) == 0xda6e26186d04f84a,
{
    reveal_strlit("U64");
    let s0 = Seq::<char>::empty();
    assert(hash_chars(s0) == HASH_OFFSET_BASIS);
    let s1 = s0.push('U');
    crate::hash::lemma_hash_push(s0, 'U');
    assert('U' as u64 == 85);
    assert(vstd::wrapping::u64_specs::wrapping_mul(0xcbf29ce484222325, 0x100000001b3) == 0xaf63bd4c8601b7df) by (nonlinear_arith);
    assert(vstd::wrapping::u64_specs::wrapping_add(0xaf63bd4c8601b7df, 85) == 0xaf63bd4c8601b834) by (nonlinear_arith);
    assert(hash_chars(s1) == 0xaf63bd4c8601b834);
    let s2 = s1.push('6');
    crate::hash::lemma_hash_push(s1, '6');
    assert('6' as u64 == 54);
    assert(vstd::wrapping::u64_specs::wrapping_mul(0xaf63bd4c8601b834, 0x100000001b3) == 0x0832dd07b4ec005c) by (nonlinear_arith);
    assert(vstd::wrapping::u64_specs::wrapping_add(0x0832dd07b4ec005c, 54) == 0x0832dd07b4ec0092) by (nonlinear_arith);
    assert(hash_chars(s2) == 0x0832dd07b4ec0092);
    let s3 = s2.push('4');
    crate::hash::lemma_hash_push(s2, '4');
    assert('4' as u64 == 52);
    assert(vstd::wrapping::u64_specs::wrapping_mul(0x0832dd07b4ec0092, 0x100000001b3) == 0xda6e26186d04f816) by (nonlinear_arith);
    assert(vstd::wrapping::u64_specs::wrapping_add(0xda6e26186d04f816, 52) == 0xda6e26186d04f84a) by (nonlinear_arith);
    assert(hash_chars(s3) == 0xda6e26186d04f84a);
    assert("U64"@ =~= s3);
}

proof fn lemma_name_hash_f64()
    ensures
        hash_chars("F64"@) == 0xda3b2c186cd9a8e3,
{
    reveal_strlit("F64");
    let s0 = Seq::<char>::empty();
    assert(hash_chars(s0) == HASH_OFFSET_BASIS);
    let s1 = s0.push('F');
    crate::hash::lemma_hash_push(s0, 'F');
    assert('F' as u64 == 70);
    assert(vstd::wrapping::u64_specs::wrapping_mul(0xcbf29ce484222325, 0x100000001b3) == 0xaf63bd4c8601b7df) by (nonlinear_arith);
    assert(vstd::wrapping::u64_specs::wrapping_add(0xaf63bd4c8601b7df, 70) == 0xaf63bd4c8601b825) by (nonlinear_arith);
    assert(hash_chars(s1) == 0xaf63bd4c8601b825);
    let s2 = s1.push('6');
    crate::hash::lemma_hash_push(s1, '6');
    assert('6' as u64 == 54);
    assert(vstd::wrapping::u64_specs::wrapping_mul(0xaf63bd4c8601b825, 0x100000001b3) == 0x0832ce07b4ebe6df) by (nonlinear_arith);
    assert(vstd::wrapping::u64_specs::wrapping_add(0x0832ce07b4ebe6df, 54) == 0x0832ce07b4ebe715) by (nonlinear_arith);
    assert(hash_chars(s2) == 0x0832ce07b4ebe715);
    let s3 = s2.push('4');
    crate::hash::lemma_hash_push(s2, '4');
    assert('4' as u64 == 52);
    assert(vstd::wrapping::u64_specs::wrapping_mul(0x0832ce07b4ebe715, 0x100000001b3) == 0xda3b2c186cd9a8af) by (nonlinear_arith);
    assert(vstd::wrapping::u64_specs::wrapping_add(0xda3b2c186cd9a8af, 52) == 0xda3b2c186cd9a8e3) by (nonlinear_arith);
    assert(hash_chars(s3) == 0xda3b2c186cd9a8e3);
    assert("F64"@ =~= s3);
}

proof fn lemma_name_hash_text()
    ensures
        hash_chars("Text"@) == 0x261988813b120f9a,
{
    reveal_strlit("Text");
    let s0 = Seq::<char>::empty();
    assert(hash_chars(s0) == HASH_OFFSET_BASIS);
    let s1 = s0.push('T');
    crate::hash::lemma_hash_push(s0, 'T');
    assert('T' as u64 == 84);
    assert(vstd::wrapping::u64_specs::wrapping_mul(0xcbf29ce484222325, 0x100000001b3) == 0xaf63bd4c8601b7df) by (nonlinear_arith);
    assert(vstd::wrapping::u64_specs::wrapping_add(0xaf63bd4c8601b7df, 84) == 0xaf63bd4c8601b833) by (nonlinear_arith);
    assert(hash_chars(s1) == 0xaf63bd4c8601b833);
    let s2 = s1.push('e');
    crate::hash::lemma_hash_push(s1, 'e');
    assert('e' as u64 == 101);
    assert(vstd::wrapping::u64_specs::wrapping_mul(0xaf63bd4c8601b833, 0x100000001b3) == 0x0832dc07b4ebfea9) by (nonlinear_arith);
    assert(vstd::wrapping::u64_specs::wrapping_add(0x0832dc07b4ebfea9, 101) == 0x0832dc07b4ebff0e) by (nonlinear_arith);
    assert(hash_chars(s2) == 0x0832dc07b4ebff0e);
    let s3 = s2.push('x');
    crate::hash::lemma_hash_push(s2, 'x');
    assert('x' as u64 == 120);
    assert(vstd::wrapping::u64_specs::wrapping_mul(0x0832dc07b4ebff0e, 0x100000001b3) == 0xda6aef186d0264ca) by (nonlinear_arith);
    assert(vstd::wrapping::u64_specs::wrapping_add(0xda6aef186d0264ca, 120) == 0xda6aef186d026542) by (nonlinear_arith);
    assert(hash_chars(s3) == 0xda6aef186d026542);
    let s4 = s3.push('t');
    crate::hash::lemma_hash_push(s3, 't');
    assert('t' as u64 == 116);
    assert(vstd::wrapping::u64_specs::wrapping_mul(0xda6aef186d026542, 0x100000001b3) == 0x261988813b120f26) by (nonlinear_arith);
    assert(vstd::wrapping::u64_specs::wrapping_add(0x261988813b120f26, 116) == 0x261988813b120f9a) by (nonlinear_arith);
    assert(hash_chars(s4) == 0x261988813b120f9a);
    assert("Text"@ =~= s4);
}

proof fn lemma_name_hash_array()
    ensures
        hash_chars("Array"@) == 0x605e90f93969ffd4,
{
    reveal_strlit("Array");
    let s0 = Seq::<char>::empty();
    assert(hash_chars(s0) == HASH_OFFSET_BASIS);
    let s1 = s0.push('A');
    crate::hash::lemma_hash_push(s0, 'A');
    assert('A' as u64 == 65);
    assert(vstd::wrapping::u64_specs::wrapping_mul(0xcbf29ce484222325, 0x100000001b3) == 0xaf63bd4c8601b7df) by (nonlinear_arith);
    assert(vstd::wrapping::u64_specs::wrapping_add(0xaf63bd4c8601b7df, 65) == 0xaf63bd4c8601b820) by (nonlinear_arith);
    assert(hash_chars(s1) == 0xaf63bd4c8601b820);
    let s2 = s1.push('r');
    crate::hash::lemma_hash_push(s1, 'r');
    assert('r' as u64 == 114);
    assert(vstd::wrapping::u64_specs::wrapping_mul(0xaf63bd4c8601b820, 0x100000001b3) == 0x0832c907b4ebde60) by (nonlinear_arith);
    assert(vstd::wrapping::u64_specs::wrapping_add(0x0832c907b4ebde60, 114) == 0x0832c907b4ebded2) by (nonlinear_arith);
    assert(hash_chars(s2) == 0x0832c907b4ebded2);
    let s3 = s2.push('r');
    crate::hash::lemma_hash_push(s2, 'r');
    assert('r' as u64 == 114);
    assert(vstd::wrapping::u64_specs::wrapping_mul(0x0832c907b4ebded2, 0x100000001b3) == 0xda2a6a186ccb9ed6) by (nonlinear_arith);
    assert(vstd::wrapping::u64_specs::wrapping_add(0xda2a6a186ccb9ed6, 114) == 0xda2a6a186ccb9f48) by (nonlinear_arith);
    assert(hash_chars(s3) == 0xda2a6a186ccb9f48);
    let s4 = s3.push('a');
    crate::hash::lemma_hash_push(s3, 'a');
    assert('a' as u64 == 97);
    assert(vstd::wrapping::u64_specs::wrapping_mul(0xda2a6a186ccb9f48, 0x100000001b3) == 0x81b18f80ddffa758) by (nonlinear_arith);
    assert(vstd::wrapping::u64_specs::wrapping_add(0x81b18f80ddffa758, 97) == 0x81b18f80ddffa7b9) by (nonlinear_arith);
    assert(hash_chars(s4) == 0x81b18f80ddffa7b9);
    let s5 = s4.push('y');
    crate::hash::lemma_hash_push(s4, 'y');
    assert('y' as u64 == 121);
    assert(vstd::wrapping::u64_specs::wrapping_mul(0x81b18f80ddffa7b9, 0x100000001b3) == 0x605e90f93969ff5b) by (nonlinear_arith);
    assert(vstd::wrapping::u64_specs::wrapping_add(0x605e90f93969ff5b, 121) == 0x605e90f93969ffd4) by (nonlinear_arith);
    assert(hash_chars(s5) == 0x605e90f93969ffd4);
    assert("Array"@ =~= s5);
}

proof fn lemma_name_hash_object()
    ensures
        hash_chars("Object"@) == 0x97578149dee52ff4,
{
    reveal_strlit("Object");
    let s0 = Seq::<char>::empty();
    assert(hash_chars(s0) == HASH_OFFSET_BASIS);
    let s1 = s0.push('O');
    crate::hash::lemma_hash_push(s0, 'O');
    assert('O' as u64 == 79);
    assert(vstd::wrapping::u64_specs::wrapping_mul(0xcbf29ce484222325, 0x100000001b3) == 0xaf63bd4c8601b7df) by (nonlinear_arith);
    assert(vstd::wrapping::u64_specs::wrapping_add(0xaf63bd4c8601b7df, 79) == 0xaf63bd4c8601b82e) by (nonlinear_arith);
    assert(hash_chars(s1) == 0xaf63bd4c8601b82e);
    let s2 = s1.push('b');
    crate::hash::lemma_hash_push(s1, 'b');
    assert('b' as u64 == 98);
    assert(vstd::wrapping::u64_specs::wrapping_mul(0xaf63bd4c8601b82e, 0x100000001b3) == 0x0832d707b4ebf62a) by (nonlinear_arith);
    assert(vstd::wrapping::u64_specs::wrapping_add(0x0832d707b4ebf62a, 98) == 0x0832d707b4ebf68c) by (nonlinear_arith);
    assert(hash_chars(s2) == 0x0832d707b4ebf68c);
    let s3 = s2.push('j');
    crate::hash::lemma_hash_push(s2, 'j');
    assert('j' as u64 == 106);
    assert(vstd::wrapping::u64_specs::wrapping_mul(0x0832d707b4ebf68c, 0x100000001b3) == 0xda59ee186cf3efe4) by (nonlinear_arith);
    assert(vstd::wrapping::u64_specs::wrapping_add(0xda59ee186cf3efe4, 106) == 0xda59ee186cf3f04e) by (nonlinear_arith);
    assert(hash_chars(s3) == 0xda59ee186cf3f04e);
    let s4 = s3.push('e');
    crate::hash::lemma_hash_push(s3, 'e');
    assert('e' as u64 == 101);
    assert(vstd::wrapping::u64_specs::wrapping_mul(0xda59ee186cf3f04e, 0x100000001b3) == 0xfabfe1812281548a) by (nonlinear_arith);
    assert(vstd::wrapping::u64_specs::wrapping_add(0xfabfe1812281548a, 101) == 0xfabfe181228154ef) by (nonlinear_arith);
    assert(hash_chars(s4) == 0xfabfe181228154ef);
    let s5 = s4.push('c');
    crate::hash::lemma_hash_push(s4, 'c');
    assert('c' as u64 == 99);
    assert(vstd::wrapping::u64_specs::wrapping_mul(0xfabfe181228154ef, 0x100000001b3) == 0x95611d6da1c3521d) by (nonlinear_arith);
    assert(vstd::wrapping::u64_specs::wrapping_add(0x95611d6da1c3521d, 99) == 0x95611d6da1c35280) by (nonlinear_arith);
    assert(hash_chars(s5) == 0x95611d6da1c35280);
    let s6 = s5.push('t');
    crate::hash::lemma_hash_push(s5, 't');
    assert('t' as u64 == 116);
    assert(vstd::wrapping::u64_specs::wrapping_mul(0x95611d6da1c35280, 0x100000001b3) == 0x97578149dee52f80) by (nonlinear_arith);
    assert(vstd::wrapping::u64_specs::wrapping_add(0x97578149dee52f80, 116) == 0x97578149dee52ff4) by (nonlinear_arith);
    assert(hash_chars(s6) == 0x97578149dee52ff4);
    assert("Object"@ =~= s6);
}


/// Law: the kind/hash mapping is a total, injective round trip — parsing the
/// content hash of any variant yields exactly that variant.
pub proof fn lemma_kind_hash_round_trip()
    ensures
        forall|k: Kind| kind_of_hash(#[trigger] k.spec_hash()) == Some(k),
{
    lemma_name_hash_null();
    lemma_name_hash_bool();
    lemma_name_hash_i64();
    lemma_name_hash_u64();
    lemma_name_hash_f64();
    lemma_name_hash_text();
    lemma_name_hash_array();
    lemma_name_hash_object();
}


/// The language tag of a text payload.  Every text this store produces is
/// tagged with the single tag below.
#[derive(Clone, Copy, Debug, PartialEq, Eq, Structural)]
pub enum Lang {
    EnUs,
}

/// A text payload: a message and its language tag.
#[derive(Clone, Debug)]
pub struct Text {
    pub msg: String,
    pub lang: Lang,
}

impl View for Text {
    type V = Seq<char>;

    open spec fn view(&self) -> Seq<char> {
        self.msg@
    }
}

impl Text {
    /// Build a text tagged as United States English.
    pub fn with_en_us(msg: &str) -> (t: Text)
        ensures
            t@ == msg@,
            t.lang == Lang::EnUs,
    {
        Text { msg: msg.to_owned(), lang: Lang::EnUs }
    }

    /// An owned copy with the same message and tag.
    pub fn duplicate(&self) -> (t: Text)
        ensures
            t@ == self@,
            t.lang == self.lang,
    {
        Text { msg: self.msg.clone(), lang: self.lang }
    }
}

impl PartialEq for Text {
    fn eq(&self, other: &Self) -> (r: bool) {
        self.msg == other.msg
    }
}

impl Eq for Text {

}

impl vstd::std_specs::cmp::PartialEqSpecImpl for Text {
    open spec fn obeys_eq_spec() -> bool {
        true
    }

    open spec fn eq_spec(&self, other: &Self) -> bool {
        self@ == other@
    }
}

/// The abstract content of a `Value`.
pub enum ValueV {
    Null,
    Bool(bool),
    U64(u64),
    I64(i64),
    F64(u64),
    Text(Seq<char>),
    Array { len: u64 },
    Object,
}

/// The payload held at a leaf or object node.
///
/// A number is exactly one of `U64`, `I64` or `F64`, chosen once at
/// ingestion by which representation the source number fits; the tag is
/// stored and never re-inferred.  A floating-point number is carried as its
/// IEEE 754 bit pattern.  An array is represented only by its element
/// count; an object marker carries no payload at all (children are stored
/// separately, addressed by hash).
#[derive(Clone, Debug)]
pub enum Value {
    Null,
    Bool(bool),
    U64(u64),
    I64(i64),
    F64(u64),
    Text(Text),
    Array { len: u64 },
    Object,
}

impl View for Value {
    type V = ValueV;

    open spec fn view(&self) -> ValueV {
        match self {
            Value::Null => ValueV::Null,
            Value::Bool(b) => ValueV::Bool(*b),
            Value::U64(v) => ValueV::U64(*v),
            Value::I64(v) => ValueV::I64(*v),
            Value::F64(bits) => ValueV::F64(*bits),
            Value::Text(t) => ValueV::Text(t@),
            Value::Array { len } => ValueV::Array { len: *len },
            Value::Object => ValueV::Object,
        }
    }
}

impl Value {
    /// The text payload of a `Text` value.
    pub fn unwrap_text(&self) -> (t: &Text)
        requires
            self is Text,
        ensures
            self@ matches ValueV::Text(s) && t@ == s,
    {
        match self {
            Value::Text(v) => v,
            _ => vstd::pervasive::unreached(),
        }
    }
}

impl PartialEq for Value {
    fn eq(&self, other: &Self) -> (r: bool) {
        match (self, other) {
            (Value::Null, Value::Null) => true,
            (Value::Bool(a), Value::Bool(b)) => a == b,
            (Value::U64(a), Value::U64(b)) => a == b,
            (Value::I64(a), Value::I64(b)) => a == b,
            (Value::F64(a), Value::F64(b)) => a == b,
            (Value::Text(a), Value::Text(b)) => a.msg == b.msg,
            (Value::Array { len: a }, Value::Array { len: b }) => a == b,
            (Value::Object, Value::Object) => true,
            _ => false,
        }
    }
}

impl Eq for Value {

}

impl vstd::std_specs::cmp::PartialEqSpecImpl for Value {
    open spec fn obeys_eq_spec() -> bool {
        true
    }

    open spec fn eq_spec(&self, other: &Self) -> bool {
        self@ == other@
    }
}

/// An opaque ranking score attached to a candidate value, used to
/// disambiguate multiple claims at the same key.
#[derive(Clone, Copy, Debug, PartialEq, Eq, Structural)]
pub struct AttentionUnit {
    pub amount: u64,
}

/// A value paired with the ranking score of the signer that submitted it.
#[derive(Clone, Debug)]
pub struct ValueCandidate {
    pub attention: AttentionUnit,
    pub value: Value,
}

impl PartialEq for ValueCandidate {
    fn eq(&self, other: &Self) -> (r: bool) {
        self.attention == other.attention && self.value == other.value
    }
}

impl Eq for ValueCandidate {

}

impl vstd::std_specs::cmp::PartialEqSpecImpl for ValueCandidate {
    open spec fn obeys_eq_spec() -> bool {
        true
    }

    open spec fn eq_spec(&self, other: &Self) -> bool {
        self.attention == other.attention && self.value@ == other.value@
    }
}


/// Lexicographic comparison of two texts by code point.  This is the total
/// order in which sibling records of a tree are kept.
pub open spec fn lex_cmp_chars(a: Seq<char>, b: Seq<char>) -> core::cmp::Ordering
    decreases a.len(),
{
    if a.len() == 0 && b.len() == 0 {
        core::cmp::Ordering::Equal
    } else if a.len() == 0 {
        core::cmp::Ordering::Less
    } else if b.len() == 0 {
        core::cmp::Ordering::Greater
    } else if (a[0] as u32) < (b[0] as u32) {
        core::cmp::Ordering::Less
    } else if (a[0] as u32) > (b[0] as u32) {
        core::cmp::Ordering::Greater
    } else {
        lex_cmp_chars(a.skip(1), b.skip(1))
    }
}

/// Two characters with the same code point are the same character.
proof fn lemma_char_eq(a: char, b: char)
    requires
        (a as u32) == (b as u32),
    ensures
        a == b,
{
}

/// Two texts compare equal exactly when they are the same text.
pub proof fn lemma_lex_cmp_eq(a: Seq<char>, b: Seq<char>)
    ensures
        lex_cmp_chars(a, b) == core::cmp::Ordering::Equal <==> a == b,
    decreases a.len(),
{
    if a.len() != 0 && b.len() != 0 && (a[0] as u32) == (b[0] as u32) {
        lemma_lex_cmp_eq(a.skip(1), b.skip(1));
        if lex_cmp_chars(a, b) == core::cmp::Ordering::Equal {
            assert(a.skip(1) == b.skip(1));
            assert(a.len() == b.len());
            lemma_char_eq(a[0], b[0]);
            assert forall|i: int| 0 <= i < a.len() implies a[i] == b[i] by {
                if i > 0 {
                    assert(a.skip(1)[i - 1] == a[i]);
                    assert(b.skip(1)[i - 1] == b[i]);
                }
            }
            assert(a =~= b);
        } else {
            if a == b {
                assert(a.skip(1) =~= b.skip(1));
            }
        }
    } else {
        if a.len() == 0 && b.len() == 0 {
            assert(a =~= b);
        }
        if a == b && a.len() != 0 {
            assert(a[0] == b[0]);
        }
    }
}

/// Compare two strings lexicographically by code point.
pub fn str_cmp(a: &str, b: &str) -> (o: core::cmp::Ordering)
    ensures
        o == lex_cmp_chars(a@, b@),
{
    let alen: usize = a.unicode_len();
    let blen: usize = b.unicode_len();
    let mut i: usize = 0;
    proof {
        assert(a@.skip(0) =~= a@);
        assert(b@.skip(0) =~= b@);
    }
    while i < alen && i < blen
        invariant
            i <= alen,
            i <= blen,
            alen == a@.len(),
            blen == b@.len(),
            lex_cmp_chars(a@, b@) == lex_cmp_chars(a@.skip(i as int), b@.skip(i as int)),
        decreases alen - i,
    {
        let ca = a.get_char(i);
        let cb = b.get_char(i);
        proof {
            assert(a@.skip(i as int)[0] == a@[i as int]);
            assert(b@.skip(i as int)[0] == b@[i as int]);
        }
        if (ca as u32) < (cb as u32) {
            return core::cmp::Ordering::Less;
        }
        if (ca as u32) > (cb as u32) {
            return core::cmp::Ordering::Greater;
        }
        proof {
            assert(a@.skip(i as int).skip(1) =~= a@.skip(i + 1 as int));
            assert(b@.skip(i as int).skip(1) =~= b@.skip(i + 1 as int));
        }
        i = i + 1;
    }
    proof {
        assert(a@.skip(i as int).len() == alen - i);
        assert(b@.skip(i as int).len() == blen - i);
    }
    if alen == blen {
        core::cmp::Ordering::Equal
    } else if alen < blen {
        core::cmp::Ordering::Less
    } else {
        core::cmp::Ordering::Greater
    }
}

/// A structural identifier: the literal dotted-path text, the cached digest
/// of that text, and the kind of the value standing at it.
///
/// Identity — equality and ordering — is defined over the text alone; the
/// kind and the cached hash are auxiliary, never identity-bearing.
#[derive(Clone, Debug)]
pub struct Key {
    pub text: Text,
    pub hash: crate::hash::Hash,
    pub kind: Kind,
}

impl Key {
    /// A key is well formed when its cached hash is the digest of its text.
    pub open spec fn wf(self) -> bool {
        self.hash == crate::hash::Hash::spec_of(self.text@)
    }

    /// Build a key over a text, caching the text's digest.
    pub fn new(text: Text, kind: Kind) -> (k: Key)
        ensures
            k.text@ == text@,
            k.text.lang == text.lang,
            k.kind == kind,
            k.wf(),
    {
        let hash = crate::hash::Hash::with_str(text.msg.as_str());
        Key { text, hash, kind }
    }

    /// Compare two keys: by their texts alone.
    pub fn cmp(&self, other: &Self) -> (o: core::cmp::Ordering)
        ensures
            o == lex_cmp_chars(self.text@, other.text@),
    {
        str_cmp(self.text.msg.as_str(), other.text.msg.as_str())
    }
}

impl PartialEq for Key {
    fn eq(&self, other: &Self) -> (r: bool) {
        self.text.msg == other.text.msg
    }
}

impl Eq for Key {

}

impl vstd::std_specs::cmp::PartialEqSpecImpl for Key {
    open spec fn obeys_eq_spec() -> bool {
        true
    }

    open spec fn eq_spec(&self, other: &Self) -> bool {
        self.text@ == other.text@
    }
}

impl PartialOrd for Key {
    fn partial_cmp(&self, other: &Self) -> (o: Option<core::cmp::Ordering>) {
        Some(str_cmp(self.text.msg.as_str(), other.text.msg.as_str()))
    }
}

impl vstd::std_specs::cmp::PartialOrdSpecImpl for Key {
    open spec fn obeys_partial_cmp_spec() -> bool {
        true
    }

    open spec fn partial_cmp_spec(&self, other: &Self) -> Option<core::cmp::Ordering> {
        Some(lex_cmp_chars(self.text@, other.text@))
    }
}

/// Law: key identity ignores the kind and the cached hash.  Two keys over
/// the same text compare equal and order as equal, whatever their kinds or
/// cached hashes; and two well-formed keys over the same text cache the
/// same hash.
pub proof fn lemma_key_identity(a: Key, b: Key)
    requires
        a.text@ == b.text@,
    ensures
        vstd::std_specs::cmp::PartialEqSpec::eq_spec(&a, &b),
        vstd::std_specs::cmp::PartialOrdSpec::partial_cmp_spec(&a, &b)
            == Some(core::cmp::Ordering::Equal),
        a.wf() && b.wf() ==> a.hash == b.hash,
{
    lemma_lex_cmp_eq(a.text@, b.text@);
}


/// The abstract content of a reconstructed child: a terminal value or a
/// nested tree of children keyed by their full path texts.
pub enum ChildV {
    Leaf(ValueV),
    Tree(Map<Seq<char>, ChildV>),
}

/// A child of a tree node: a terminal value candidate, or a nested subtree.
#[derive(Debug)]
pub enum Child {
    Candidate(ValueCandidate),
    Tree(NodeTree),
}

/// A reconstructed tree node: an ordered mapping from structural key to
/// child.  Every child's full path, dot-joined, is the text of the key it
/// is reached by, so the shape is fully recoverable from key texts alone.
#[derive(Debug)]
pub struct NodeTree {
    pub children: Vec<(Key, Child)>,
}

/// The abstract content of a child.
pub open spec fn child_view(c: Child) -> ChildV
    decreases c,
{
    match c {
        Child::Candidate(vc) => ChildV::Leaf(vc.value@),
        Child::Tree(t) => ChildV::Tree(kids_view(t.children@)),
    }
}

/// The abstract content of a node's children: the mapping from each key's
/// text to the content of the child standing at it.
pub open spec fn kids_view(s: Seq<(Key, Child)>) -> Map<Seq<char>, ChildV>
    decreases s,
{
    if s.len() == 0 {
        Map::empty()
    } else {
        kids_view(s.drop_last()).insert(s.last().0.text@, child_view(s.last().1))
    }
}

impl View for NodeTree {
    type V = Map<Seq<char>, ChildV>;

    open spec fn view(&self) -> Map<Seq<char>, ChildV> {
        kids_view(self.children@)
    }
}

/// A child is well formed when every key caches the digest of its text and
/// siblings stand in strictly ascending text order.
pub open spec fn child_wf(c: Child) -> bool
    decreases c,
{
    match c {
        Child::Candidate(_) => true,
        Child::Tree(t) => tree_wf(t),
    }
}

/// A tree is well formed when its children stand in strictly ascending
/// order of their key texts — so sibling iteration order is deterministic
/// and key texts are unique — and every key caches the digest of its text.
pub open spec fn tree_wf(t: NodeTree) -> bool
    decreases t,
{
    &&& forall|i: int, j: int|
        0 <= i < j < t.children@.len() ==> lex_cmp_chars(
            (#[trigger] t.children@[i]).0.text@,
            (#[trigger] t.children@[j]).0.text@,
        ) == core::cmp::Ordering::Less
    &&& forall|i: int|
        0 <= i < t.children@.len() ==> (#[trigger] t.children@[i]).0.wf() && child_wf(
            t.children@[i].1,
        )
}

impl NodeTree {
    /// The empty tree.
    pub fn new() -> (t: NodeTree)
        ensures
            t@ == Map::<Seq<char>, ChildV>::empty(),
            tree_wf(t),
            t.children@.len() == 0,
    {
        NodeTree { children: Vec::new() }
    }
}

} // verus!
