//! Paths as the kernel reads them: bytes without a zero among them.

use crate::os_path::joined_bytes;
use vstd::prelude::*;

verus! {

/// The byte between a directory and a name in it.
pub const SEPARATOR: u8 = 47;

/// The byte that the names `.` and `..` are made of.
pub const DOT: u8 = 46;

/// The path of `name` in the directory `dir`.
pub open spec fn child_path(dir: Seq<u8>, name: Seq<u8>) -> Seq<u8> {
    dir + seq![SEPARATOR] + name
}

/// Whether `name` is the entry by which a directory lists itself or its parent.
pub open spec fn is_dot_name(name: Seq<u8>) -> bool {
    name == seq![DOT] || name == seq![DOT, DOT]
}

/// A path or a file name that a system call can take: no byte of it is zero.
#[derive(Debug, PartialEq, Eq)]
pub struct CPath {
    bytes: Vec<u8>,
}

impl View for CPath {
    type V = Seq<u8>;

    closed spec fn view(&self) -> Seq<u8> {
        self.bytes@
    }
}

impl CPath {
    #[verifier::type_invariant]
    spec fn has_no_zero(self) -> bool {
        !self.bytes@.contains(0u8)
    }

    /// The path with these bytes, unless one of them is zero.
    pub fn new(bytes: Vec<u8>) -> (path: Option<CPath>)
        ensures
            path is None <==> bytes@.contains(0u8),
            path matches Some(path) ==> path@ == bytes@,
    {
        let mut i: usize = 0;
        while i < bytes.len()
            invariant
                i <= bytes.len(),
                forall|j: int| 0 <= j < i ==> bytes@[j] != 0u8,
            decreases bytes.len() - i,
        {
            if bytes[i] == 0 {
                assert(bytes@[i as int] == 0u8);
                return None;
            }
            i += 1;
        }
        Some(CPath { bytes })
    }

    /// The bytes of the path.
    pub fn as_bytes(&self) -> (bytes: &[u8])
        ensures
            bytes@ == self@,
            !bytes@.contains(0u8),
    {
        proof {
            use_type_invariant(self);
        }
        self.bytes.as_slice()
    }

    /// The path of `name` in this directory, as messages show it.
    pub fn join(&self, name: &CPath) -> (path: CPath)
        ensures
            path@ == joined_bytes(self@, name@),
    {
        let absolute = name.bytes.len() > 0 && name.bytes[0] == SEPARATOR;
        let len: usize = self.bytes.len();
        if absolute {
            name.clone()
        } else if len == 0 {
            assert(joined_bytes(self@, name@) =~= name@);
            name.clone()
        } else if self.bytes[len - 1] == SEPARATOR {
            let mut bytes: Vec<u8> = self.bytes.clone();
            assert(bytes@ =~= self.bytes@);
            bytes.extend_from_slice(name.bytes.as_slice());
            proof {
                use_type_invariant(self);
                use_type_invariant(name);
                assert(bytes@ =~= self.bytes@ + name.bytes@);
                assert forall|i: int| 0 <= i < bytes@.len() implies bytes@[i] != 0u8 by {
                    if i < self.bytes@.len() {
                        assert(self.bytes@.contains(bytes@[i]));
                    } else {
                        assert(name.bytes@[i - self.bytes@.len()] == bytes@[i]);
                        assert(name.bytes@.contains(bytes@[i]));
                    }
                }
            }
            CPath { bytes }
        } else {
            concat_cstrs(self, name)
        }
    }

    /// Whether this is the name `.` or the name `..`.
    pub fn is_dot(&self) -> (dot: bool)
        ensures
            dot == is_dot_name(self@),
            dot <==> (self@.len() == 1 && self@[0] == 46) || (self@.len() == 2 && self@[0] == 46
                && self@[1] == 46),
    {
        let len: usize = self.bytes.len();
        if len == 1 {
            let dot = self.bytes[0] == DOT;
            assert(dot ==> self@ =~= seq![DOT]);
            assert(self@ != seq![DOT, DOT]) by {
                assert(seq![DOT, DOT].len() == 2);
            }
            dot
        } else if len == 2 {
            let dot = self.bytes[0] == DOT && self.bytes[1] == DOT;
            assert(dot ==> self@ =~= seq![DOT, DOT]);
            assert(self@ != seq![DOT]) by {
                assert(seq![DOT].len() == 1);
            }
            dot
        } else {
            assert(self@.len() == len);
            false
        }
    }
}

impl Clone for CPath {
    fn clone(&self) -> (copy: CPath)
        ensures
            copy@ == self@,
    {
        proof {
            use_type_invariant(self);
        }
        let bytes = self.bytes.clone();
        assert(bytes@ =~= self.bytes@);
        CPath { bytes }
    }
}

/// The path of `name` in the directory `prefix`.
pub fn concat_cstrs(prefix: &CPath, name: &CPath) -> (path: CPath)
    ensures
        path@ == child_path(prefix@, name@),
        path@ == prefix@ + seq![47u8] + name@,
{
    proof {
        use_type_invariant(prefix);
        use_type_invariant(name);
    }
    let mut bytes: Vec<u8> = prefix.bytes.clone();
    assert(bytes@ =~= prefix.bytes@);
    bytes.push(SEPARATOR);
    bytes.extend_from_slice(name.bytes.as_slice());
    proof {
        let all = prefix.bytes@ + seq![SEPARATOR] + name.bytes@;
        assert(bytes@ =~= all);
        assert forall|i: int| 0 <= i < all.len() implies all[i] != 0u8 by {
            if i < prefix.bytes@.len() {
                assert(all[i] == prefix.bytes@[i]);
                assert(prefix.bytes@.contains(all[i]));
            } else if i > prefix.bytes@.len() {
                let k = i - prefix.bytes@.len() - 1;
                assert(all[i] == name.bytes@[k]);
                assert(name.bytes@.contains(all[i]));
            }
        }
    }
    CPath { bytes }
}

} // verus!
