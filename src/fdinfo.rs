use vstd::prelude::*;

use crate::error::DecodeError;
use crate::map::{BpfMap, MapType, map_type_code};
use crate::table::bytes_equal;
use vstd::array::array_as_slice;
use vstd::slice::slice_subrange;

verus! {

/// The byte value of a line break.
pub const NEWLINE: u8 = 10;

/// The byte value of a tab, which parts a key from its value.
pub const TAB: u8 = 9;

/// The fields of the metadata listing that this library reads.
#[derive(Clone, Copy, Debug, PartialEq, Eq, Structural)]
pub enum MetaField {
    MapType,
    KeySize,
    ValueSize,
    MaxEntries,
    MapFlags,
}

/// The key under which each field is listed, colon included.
pub open spec fn field_name(f: MetaField) -> Seq<u8> {
    match f {
        MetaField::MapType => seq![('m' as u8), ('a' as u8), ('p' as u8), ('_' as u8), ('t' as u8), ('y' as u8), ('p' as u8), ('e' as u8), (':' as u8)],
        MetaField::KeySize => seq![('k' as u8), ('e' as u8), ('y' as u8), ('_' as u8), ('s' as u8), ('i' as u8), ('z' as u8), ('e' as u8), (':' as u8)],
        MetaField::ValueSize => seq![('v' as u8), ('a' as u8), ('l' as u8), ('u' as u8), ('e' as u8), ('_' as u8), ('s' as u8), ('i' as u8), ('z' as u8), ('e' as u8), (':' as u8)],
        MetaField::MaxEntries => seq![('m' as u8), ('a' as u8), ('x' as u8), ('_' as u8), ('e' as u8), ('n' as u8), ('t' as u8), ('r' as u8), ('i' as u8), ('e' as u8), ('s' as u8), (':' as u8)],
        MetaField::MapFlags => seq![('m' as u8), ('a' as u8), ('p' as u8), ('_' as u8), ('f' as u8), ('l' as u8), ('a' as u8), ('g' as u8), ('s' as u8), (':' as u8)],
    }
}

pub open spec fn field_of(key: Seq<u8>) -> Option<MetaField> {
    if key == field_name(MetaField::MapType) {
        Some(MetaField::MapType)
    } else if key == field_name(MetaField::KeySize) {
        Some(MetaField::KeySize)
    } else if key == field_name(MetaField::ValueSize) {
        Some(MetaField::ValueSize)
    } else if key == field_name(MetaField::MaxEntries) {
        Some(MetaField::MaxEntries)
    } else if key == field_name(MetaField::MapFlags) {
        Some(MetaField::MapFlags)
    } else {
        None
    }
}

/// The first index at or after `i` that holds byte `b`, or the length when none does.
pub open spec fn find_byte(s: Seq<u8>, i: int, b: u8) -> int
    decreases s.len() - i,
{
    if i >= s.len() {
        s.len() as int
    } else if s[i] == b {
        i
    } else {
        find_byte(s, i + 1, b)
    }
}

pub open spec fn digit_value(c: u8) -> int {
    if ('0' as u8) <= c <= ('9' as u8) {
        c - ('0' as u8)
    } else if ('a' as u8) <= c <= ('f' as u8) {
        c - ('a' as u8) + 10
    } else if ('A' as u8) <= c <= ('F' as u8) {
        c - ('A' as u8) + 10
    } else {
        99
    }
}

pub open spec fn all_digits(s: Seq<u8>, radix: int) -> bool {
    forall|i: int| 0 <= i < s.len() ==> #[trigger] digit_value(s[i]) < radix
}

/// The number that digits `s` write in base `radix`, most significant first.
pub open spec fn digits_value(s: Seq<u8>, radix: int) -> int
    decreases s.len(),
{
    if s.len() == 0 {
        0
    } else {
        digits_value(s.drop_last(), radix) * radix + digit_value(s.last())
    }
}

/// The number that `s` writes in base `radix`, if it is a non-empty run of digits.
pub open spec fn number(s: Seq<u8>, radix: int) -> Option<int> {
    if s.len() > 0 && all_digits(s, radix) {
        Some(digits_value(s, radix))
    } else {
        None
    }
}

/// The value of a flags field: hexadecimal, after an optional `0x`.
pub open spec fn hex_field(v: Seq<u8>) -> Option<int> {
    if v.len() >= 2 && v[0] == ('0' as u8) && v[1] == ('x' as u8) {
        number(v.subrange(2, v.len() as int), 16)
    } else {
        number(v, 16)
    }
}

pub open spec fn size_field(n: Option<int>) -> Result<usize, DecodeError> {
    match n {
        Some(x) if x <= usize::MAX => Ok(x as usize),
        _ => Err(DecodeError::Field),
    }
}

/// The kind whose code is `x`, for `x` up to 11.
pub open spec fn map_type_from(x: int) -> MapType {
    if x == 0 {
        MapType::Unspec
    } else if x == 1 {
        MapType::Hash
    } else if x == 2 {
        MapType::Array
    } else if x == 3 {
        MapType::ProgArray
    } else if x == 4 {
        MapType::PerfEventArray
    } else if x == 5 {
        MapType::PerCPUHash
    } else if x == 6 {
        MapType::PerCPUArray
    } else if x == 7 {
        MapType::StackTrace
    } else if x == 8 {
        MapType::CgroupArray
    } else if x == 9 {
        MapType::LRUHash
    } else if x == 10 {
        MapType::LRUPerCPUHash
    } else {
        MapType::LPMTrie
    }
}

pub open spec fn map_type_of_code(n: Option<int>) -> Result<MapType, DecodeError> {
    match n {
        Some(x) if x <= 11 => Ok(map_type_from(x)),
        Some(x) if x <= u64::MAX => Err(DecodeError::MapType { code: x as u64 }),
        _ => Err(DecodeError::Field),
    }
}

/// The metadata before any line is read: every field zero or unspecified.
pub open spec fn blank_map(fd: i32) -> BpfMap {
    BpfMap { fd, map_type: MapType::Unspec, key_size: 0, value_size: 0, max_entries: 0, map_flags: 0 }
}

/// The effect of one line: a `key:\tvalue` line of a known field sets that field;
/// any other line leaves the metadata as it is.
pub open spec fn apply_line(m: BpfMap, line: Seq<u8>) -> Result<BpfMap, DecodeError> {
    let t = find_byte(line, 0, TAB);
    let key = line.subrange(0, t);
    let v = line.subrange(t + 1, line.len() as int);
    if t >= line.len() {
        Ok(m)
    } else {
        match field_of(key) {
            Some(MetaField::MapType) => match map_type_of_code(number(v, 10)) {
                Ok(x) => Ok(BpfMap { map_type: x, ..m }),
                Err(e) => Err(e),
            },
            Some(MetaField::KeySize) => match size_field(number(v, 10)) {
                Ok(x) => Ok(BpfMap { key_size: x, ..m }),
                Err(e) => Err(e),
            },
            Some(MetaField::ValueSize) => match size_field(number(v, 10)) {
                Ok(x) => Ok(BpfMap { value_size: x, ..m }),
                Err(e) => Err(e),
            },
            Some(MetaField::MaxEntries) => match size_field(number(v, 10)) {
                Ok(x) => Ok(BpfMap { max_entries: x, ..m }),
                Err(e) => Err(e),
            },
            Some(MetaField::MapFlags) => match size_field(hex_field(v)) {
                Ok(x) => Ok(BpfMap { map_flags: x, ..m }),
                Err(e) => Err(e),
            },
            None => Ok(m),
        }
    }
}

/// The metadata after the lines of `t` from index `i` on, in order; the first bad field fails.
pub open spec fn apply_lines(m: BpfMap, t: Seq<u8>, i: int) -> Result<BpfMap, DecodeError>
    decreases t.len() - i,
{
    if i >= t.len() {
        Ok(m)
    } else {
        let e = find_byte(t, i, NEWLINE);
        let end = if e < i {
            i
        } else if e > t.len() {
            t.len() as int
        } else {
            e
        };
        match apply_line(m, t.subrange(i, end)) {
            Ok(m2) => if end + 1 < t.len() {
                apply_lines(m2, t, end + 1)
            } else {
                Ok(m2)
            },
            Err(x) => Err(x),
        }
    }
}


fn find_from(s: &[u8], i: usize, b: u8) -> (r: usize)
    requires
        i <= s@.len(),
    ensures
        r == find_byte(s@, i as int, b),
        i <= r <= s@.len(),
{
    let mut j: usize = i;
    while j < s.len()
        invariant
            i <= j <= s@.len(),
            find_byte(s@, i as int, b) == find_byte(s@, j as int, b),
        decreases s@.len() - j,
    {
        if s[j] == b {
            return j;
        }
        j += 1;
    }
    j
}

fn digit(c: u8) -> (r: u64)
    ensures
        r == digit_value(c),
{
    if '0' as u8 <= c && c <= '9' as u8 {
        (c - '0' as u8) as u64
    } else if 'a' as u8 <= c && c <= 'f' as u8 {
        (c - 'a' as u8 + 10) as u64
    } else if 'A' as u8 <= c && c <= 'F' as u8 {
        (c - 'A' as u8 + 10) as u64
    } else {
        99
    }
}

/// Reads `s` as a number in base `radix`; `None` when it is empty, holds a non-digit,
/// or does not fit in 64 bits.
pub fn parse_number(s: &[u8], radix: u64) -> (r: Option<u64>)
    requires
        radix == 10 || radix == 16,
    ensures
        r == (match number(s@, radix as int) {
            Some(n) => if n <= u64::MAX {
                Some(n as u64)
            } else {
                None
            },
            None => None,
        }),
        number(s@, radix as int) matches Some(n) ==> n >= 0,
{
    if s.len() == 0 {
        return None;
    }
    let mut acc: u64 = 0;
    let mut over = false;
    let mut i: usize = 0;
    while i < s.len()
        invariant
            radix == 10 || radix == 16,
            i <= s@.len(),
            all_digits(s@.take(i as int), radix as int),
            over ==> digits_value(s@.take(i as int), radix as int) > u64::MAX,
            !over ==> acc == digits_value(s@.take(i as int), radix as int),
            digits_value(s@.take(i as int), radix as int) >= 0,
        decreases s@.len() - i,
    {
        let d = digit(s[i]);
        let ghost p = s@.take(i as int);
        let ghost q = s@.take(i as int + 1);
        assert(q.drop_last() =~= p);
        assert(q.last() == s@[i as int]);
        if d >= radix {
            assert(!all_digits(s@, radix as int));
            return None;
        }
        let ghost pv = digits_value(p, radix as int);
        assert(digits_value(q, radix as int) == pv * radix + d);
        if over {
            assert(pv * radix + d > u64::MAX) by (nonlinear_arith)
                requires
                    pv > u64::MAX,
                    radix >= 10,
                    d >= 0,
            ;
        } else if acc > (u64::MAX - d) / radix {
            assert(pv * radix + d > u64::MAX) by (nonlinear_arith)
                requires
                    pv == acc,
                    acc > (u64::MAX - d) / (radix as int),
                    radix >= 10,
                    d < radix,
            ;
            over = true;
        } else {
            assert(acc * radix + d <= u64::MAX) by (nonlinear_arith)
                requires
                    acc <= (u64::MAX - d) / (radix as int),
                    radix >= 10,
                    d < radix,
            ;
            acc = acc * radix + d;
        }
        assert(digits_value(q, radix as int) >= 0) by (nonlinear_arith)
            requires
                digits_value(q, radix as int) == pv * radix + d,
                pv >= 0,
                radix >= 10,
                d >= 0,
        ;
        assert forall|k: int| 0 <= k < q.len() implies #[trigger] digit_value(q[k]) < radix by {
            if k < i {
                assert(q[k] == p[k]);
            }
        }
        i += 1;
    }
    assert(s@.take(i as int) =~= s@);
    if over {
        None
    } else {
        Some(acc)
    }
}

fn field_key(f: MetaField) -> (r: Vec<u8>)
    ensures
        r@ == field_name(f),
{
    let r = match f {
        MetaField::MapType => vstd::slice::slice_to_vec(array_as_slice(&['m' as u8, 'a' as u8, 'p' as u8, '_' as u8, 't' as u8, 'y' as u8, 'p' as u8, 'e' as u8, ':' as u8])),
        MetaField::KeySize => vstd::slice::slice_to_vec(array_as_slice(&['k' as u8, 'e' as u8, 'y' as u8, '_' as u8, 's' as u8, 'i' as u8, 'z' as u8, 'e' as u8, ':' as u8])),
        MetaField::ValueSize => vstd::slice::slice_to_vec(array_as_slice(&['v' as u8, 'a' as u8, 'l' as u8, 'u' as u8, 'e' as u8, '_' as u8, 's' as u8, 'i' as u8, 'z' as u8, 'e' as u8, ':' as u8])),
        MetaField::MaxEntries => vstd::slice::slice_to_vec(array_as_slice(&['m' as u8, 'a' as u8, 'x' as u8, '_' as u8, 'e' as u8, 'n' as u8, 't' as u8, 'r' as u8, 'i' as u8, 'e' as u8, 's' as u8, ':' as u8])),
        MetaField::MapFlags => vstd::slice::slice_to_vec(array_as_slice(&['m' as u8, 'a' as u8, 'p' as u8, '_' as u8, 'f' as u8, 'l' as u8, 'a' as u8, 'g' as u8, 's' as u8, ':' as u8])),
    };
    assert(r@ =~= field_name(f));
    r
}


fn field_lookup(key: &[u8]) -> (r: Option<MetaField>)
    ensures
        r == field_of(key@),
{
    if bytes_equal(key, field_key(MetaField::MapType).as_slice()) {
        Some(MetaField::MapType)
    } else if bytes_equal(key, field_key(MetaField::KeySize).as_slice()) {
        Some(MetaField::KeySize)
    } else if bytes_equal(key, field_key(MetaField::ValueSize).as_slice()) {
        Some(MetaField::ValueSize)
    } else if bytes_equal(key, field_key(MetaField::MaxEntries).as_slice()) {
        Some(MetaField::MaxEntries)
    } else if bytes_equal(key, field_key(MetaField::MapFlags).as_slice()) {
        Some(MetaField::MapFlags)
    } else {
        None
    }
}

fn size_value(n: Option<u64>) -> (r: Result<usize, DecodeError>)
    ensures
        r == size_field(
            match n {
                Some(x) => Some(x as int),
                None => None,
            },
        ),
{
    match n {
        Some(x) => if x <= usize::MAX as u64 {
            Ok(x as usize)
        } else {
            Err(DecodeError::Field)
        },
        None => Err(DecodeError::Field),
    }
}

proof fn lemma_over_u64(n: Option<int>)
    requires
        n matches Some(x) ==> x > u64::MAX,
    ensures
        size_field(n) == Err::<usize, DecodeError>(DecodeError::Field),
        map_type_of_code(n) == Err::<MapType, DecodeError>(DecodeError::Field),
{
}

/// Applies one metadata line to `m`: a known field is set, other lines change nothing.
pub fn apply_metadata_line(m: &mut BpfMap, line: &[u8]) -> (r: Result<(), DecodeError>)
    ensures
        match apply_line(*old(m), line@) {
            Ok(m2) => r is Ok && *final(m) == m2,
            Err(e) => r == Err::<(), DecodeError>(e) && *final(m) == *old(m),
        },
{
    let t = find_from(line, 0, TAB);
    if t >= line.len() {
        return Ok(());
    }
    let key = slice_subrange(line, 0, t);
    let v = slice_subrange(line, t + 1, line.len());
    let field = match field_lookup(key) {
        Some(f) => f,
        None => {
            return Ok(());
        },
    };
    let ghost dec = number(v@, 10);
    let ghost hex = hex_field(v@);
    match field {
        MetaField::MapType => {
            let n = parse_number(v, 10);
            match n {
                None => {
                    proof {
                        lemma_over_u64(dec);
                    }
                    return Err(DecodeError::Field);
                },
                Some(code) => {
                    match MapType::from_code(code) {
                        Ok(x) => {
                            assert(map_type_code(x) == code);
                            assert(map_type_from(code as int) == x);
                            m.map_type = x;
                        },
                        Err(e) => {
                            return Err(e);
                        },
                    }
                },
            }
        },
        MetaField::KeySize => {
            let n = parse_number(v, 10);
            proof {
                if n is None {
                    lemma_over_u64(dec);
                }
            }
            let x = match size_value(n) {
                Ok(x) => x,
                Err(e) => {
                    return Err(e);
                },
            };
            m.key_size = x;
        },
        MetaField::ValueSize => {
            let n = parse_number(v, 10);
            proof {
                if n is None {
                    lemma_over_u64(dec);
                }
            }
            let x = match size_value(n) {
                Ok(x) => x,
                Err(e) => {
                    return Err(e);
                },
            };
            m.value_size = x;
        },
        MetaField::MaxEntries => {
            let n = parse_number(v, 10);
            proof {
                if n is None {
                    lemma_over_u64(dec);
                }
            }
            let x = match size_value(n) {
                Ok(x) => x,
                Err(e) => {
                    return Err(e);
                },
            };
            m.max_entries = x;
        },
        MetaField::MapFlags => {
            let digits = if v.len() >= 2 && v[0] == '0' as u8 && v[1] == 'x' as u8 {
                slice_subrange(v, 2, v.len())
            } else {
                v
            };
            let n = parse_number(digits, 16);
            proof {
                if n is None {
                    lemma_over_u64(hex);
                }
            }
            let x = match size_value(n) {
                Ok(x) => x,
                Err(e) => {
                    return Err(e);
                },
            };
            m.map_flags = x;
        },
    }
    Ok(())
}

impl BpfMap {
    /// The metadata of the map open as `fd`, read from its listing `text`: one
    /// `key:\tvalue` pair per line. `map_type`, `key_size`, `value_size` and `max_entries`
    /// are decimal, `map_flags` hexadecimal (after an optional `0x`). Fields not listed
    /// stay zero; other lines are ignored; a listed field that does not read as its
    /// number, or an unknown map kind, is an error.
    pub fn from_fdinfo(fd: i32, text: &[u8]) -> (r: Result<BpfMap, DecodeError>)
        ensures
            r == apply_lines(blank_map(fd), text@, 0),
    {
        let mut m = BpfMap {
            fd,
            map_type: MapType::Unspec,
            key_size: 0,
            value_size: 0,
            max_entries: 0,
            map_flags: 0,
        };
        let ghost m0 = m;
        assert(m0 == blank_map(fd));
        let mut i: usize = 0;
        while i < text.len()
            invariant
                i <= text@.len(),
                m0 == blank_map(fd),
                apply_lines(m0, text@, 0) == apply_lines(m, text@, i as int),
            decreases text@.len() - i,
        {
            let end = find_from(text, i, NEWLINE);
            let line = slice_subrange(text, i, end);
            let ghost before = m;
            assert(apply_lines(before, text@, i as int) == match apply_line(before, line@) {
                Ok(m2) => if end + 1 < text@.len() {
                    apply_lines(m2, text@, end + 1)
                } else {
                    Ok(m2)
                },
                Err(x) => Err(x),
            });
            match apply_metadata_line(&mut m, line) {
                Ok(()) => {},
                Err(e) => {
                    return Err(e);
                },
            }
            if end >= text.len() - 1 {
                return Ok(m);
            }
            i = end + 1;
        }
        Ok(m)
    }
}

} // verus!
