use vstd::prelude::*;

use crate::error::DecodeError;

verus! {

/// `E2BIG`: the kernel's answer to a new key in a full map.
pub const E2BIG: i32 = 7;

/// How a keyed-access operation on a map failed.
#[derive(Clone, Copy, Debug, PartialEq, Eq, Structural)]
pub enum MapError {
    /// The key is not in the map (lookup, delete).
    NotFound,
    /// The key given to a next-key step was the last one.
    EndOfEnumeration,
    /// Any other failure the kernel reported, with its error number.
    Io(i32),
}

/// The kind of a kernel map.
#[derive(Clone, Copy, Debug, PartialEq, Eq, Structural)]
pub enum MapType {
    Unspec,
    Hash,
    Array,
    ProgArray,
    PerfEventArray,
    PerCPUHash,
    PerCPUArray,
    StackTrace,
    CgroupArray,
    LRUHash,
    LRUPerCPUHash,
    LPMTrie,
}

/// The numeric code the kernel uses for each kind.
pub open spec fn map_type_code(t: MapType) -> u64 {
    match t {
        MapType::Unspec => 0,
        MapType::Hash => 1,
        MapType::Array => 2,
        MapType::ProgArray => 3,
        MapType::PerfEventArray => 4,
        MapType::PerCPUHash => 5,
        MapType::PerCPUArray => 6,
        MapType::StackTrace => 7,
        MapType::CgroupArray => 8,
        MapType::LRUHash => 9,
        MapType::LRUPerCPUHash => 10,
        MapType::LPMTrie => 11,
    }
}

impl MapType {
    /// The kind with numeric code `code`; codes past the last kind are refused.
    pub fn from_code(code: u64) -> (r: Result<MapType, DecodeError>)
        ensures
            code <= 11 ==> (r matches Ok(t) && map_type_code(t) == code),
            code > 11 ==> r == Err::<MapType, DecodeError>(DecodeError::MapType { code }),
    {
        match code {
            0 => Ok(MapType::Unspec),
            1 => Ok(MapType::Hash),
            2 => Ok(MapType::Array),
            3 => Ok(MapType::ProgArray),
            4 => Ok(MapType::PerfEventArray),
            5 => Ok(MapType::PerCPUHash),
            6 => Ok(MapType::PerCPUArray),
            7 => Ok(MapType::StackTrace),
            8 => Ok(MapType::CgroupArray),
            9 => Ok(MapType::LRUHash),
            10 => Ok(MapType::LRUPerCPUHash),
            11 => Ok(MapType::LPMTrie),
            _ => Err(DecodeError::MapType { code }),
        }
    }

    /// The numeric code of this kind.
    pub fn code(&self) -> (r: u64)
        ensures
            r == map_type_code(*self),
    {
        match self {
            MapType::Unspec => 0,
            MapType::Hash => 1,
            MapType::Array => 2,
            MapType::ProgArray => 3,
            MapType::PerfEventArray => 4,
            MapType::PerCPUHash => 5,
            MapType::PerCPUArray => 6,
            MapType::StackTrace => 7,
            MapType::CgroupArray => 8,
            MapType::LRUHash => 9,
            MapType::LRUPerCPUHash => 10,
            MapType::LPMTrie => 11,
        }
    }
}

/// A kernel map: its descriptor and the metadata read when it was opened.
#[derive(Clone, Copy, Debug, PartialEq, Eq, Structural)]
pub struct BpfMap {
    pub fd: i32,
    pub map_type: MapType,
    pub key_size: usize,
    pub value_size: usize,
    pub max_entries: usize,
    pub map_flags: usize,
}

/// A walk over a map's keys by next-key steps, from the all-zero key. The caller makes
/// each kernel call and hands its outcome back: `key()` is what to pass to the next-key
/// step, `on_next_key` takes its result, `on_lookup` the result of looking the new key up.
pub struct MapIterator {
    key: Vec<u8>,
    finished: bool,
}

impl MapIterator {
    /// A walk that has not started: the current key is all zeros.
    pub fn new(key_size: usize) -> (r: MapIterator)
        ensures
            r.spec_key() == Seq::new(key_size as nat, |i: int| 0u8),
            !r.is_finished(),
    {
        let mut key: Vec<u8> = Vec::new();
        let mut i: usize = 0;
        while i < key_size
            invariant
                i <= key_size,
                key@ == Seq::new(i as nat, |j: int| 0u8),
            decreases key_size - i,
        {
            key.push(0u8);
            i += 1;
        }
        MapIterator { key, finished: false }
    }

    pub closed spec fn spec_key(&self) -> Seq<u8> {
        self.key@
    }

    pub closed spec fn spec_finished(&self) -> bool {
        self.finished
    }

    /// The key the next next-key step starts from.
    pub fn key(&self) -> (r: &Vec<u8>)
        ensures
            r@ == self.spec_key(),
    {
        &self.key
    }

    #[verifier::when_used_as_spec(spec_finished)]
    pub fn is_finished(&self) -> (r: bool)
        ensures
            r == self.spec_finished(),
    {
        self.finished
    }

    /// Takes the outcome of a next-key step. A key is handed back for lookup; the end of
    /// the enumeration finishes the walk with `Ok(None)`; any other failure finishes it
    /// with that error, which is not mistaken for the end.
    pub fn on_next_key(&mut self, next: Result<Vec<u8>, MapError>) -> (r: Result<
        Option<Vec<u8>>,
        MapError,
    >)
        ensures
            final(self).spec_key() == old(self).spec_key(),
            match next {
                Ok(k) => r == Ok::<Option<Vec<u8>>, MapError>(Some(k)) && final(self).spec_finished()
                    == old(self).spec_finished(),
                Err(MapError::EndOfEnumeration) => r == Ok::<Option<Vec<u8>>, MapError>(None)
                    && final(self).spec_finished(),
                Err(e) => r == Err::<Option<Vec<u8>>, MapError>(e) && final(self).spec_finished(),
            },
    {
        match next {
            Ok(k) => Ok(Some(k)),
            Err(MapError::EndOfEnumeration) => {
                self.finished = true;
                Ok(None)
            },
            Err(e) => {
                self.finished = true;
                Err(e)
            },
        }
    }

    /// Takes the outcome of looking up `key`, the key the last step handed out; the walk
    /// goes on from `key` in every case but a failure. An entry deleted in between is
    /// skipped (`Ok(None)`); a found one is handed back with its value.
    pub fn on_lookup(&mut self, key: Vec<u8>, value: Result<Vec<u8>, MapError>) -> (r: Result<
        Option<(Vec<u8>, Vec<u8>)>,
        MapError,
    >)
        ensures
            match value {
                Ok(v) => r matches Ok(Some(p)) && p.0@ == key@ && p.1@ == v@
                    && final(self).spec_key() == key@ && final(self).spec_finished()
                    == old(self).spec_finished(),
                Err(MapError::NotFound) => r matches Ok(None) && final(self).spec_key() == key@
                    && final(self).spec_finished() == old(self).spec_finished(),
                Err(e) => r == Err::<Option<(Vec<u8>, Vec<u8>)>, MapError>(e)
                    && final(self).spec_key() == old(self).spec_key() && final(self).spec_finished(),
            },
    {
        match value {
            Ok(v) => {
                self.key = key.clone();
                Ok(Some((key, v)))
            },
            Err(MapError::NotFound) => {
                self.key = key;
                Ok(None)
            },
            Err(e) => {
                self.finished = true;
                Err(e)
            },
        }
    }
}

} // verus!
