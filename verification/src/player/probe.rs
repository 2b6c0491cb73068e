//! Runtime detection of kitty-graphics support by *asking the terminal*, rather
//! than guessing from `$TERM`/env. Works for any terminal that implements the
//! protocol (kitty, Ghostty, WezTerm, Konsole, …) and also tells us whether the
//! shared-memory transport is usable here.
//!
//! Method: send a graphics query (`a=q`) over the direct transport, another over
//! shared memory, then a Primary Device Attributes request (`ESC [ c`) as a
//! sentinel. Replies arrive in order, so the DA reply (which every VT terminal
//! sends) marks the end — terminals without graphics support still answer DA
//! and so are detected almost instantly. A `i=<id>;OK` reply means support.
//! This module reads the replies; sending and receiving is the caller's.

use vstd::prelude::*;
use crate::player::image_pane::{ascii, base64_encode, base64_of, push_ascii};

verus! {

/// Image id of the query sent over the direct transport.
pub const DIRECT_ID: u32 = 4242;

/// Image id of the query sent over shared memory.
pub const SHM_ID: u32 = 4243;

/// What the terminal said it can do.
#[derive(Clone, Copy, Debug, PartialEq, Eq, Structural)]
pub struct GraphicsSupport {
    pub graphics: bool,
    pub shm: bool,
}

/// `needle` sits in `hay` at byte `p`.
pub open spec fn bytes_at(hay: Seq<u8>, needle: Seq<u8>, p: int) -> bool {
    0 <= p && p + needle.len() <= hay.len() && hay.subrange(p, p + needle.len()) == needle
}

/// The first position of `needle` in `hay`; none for an empty needle.
pub open spec fn first_at(hay: Seq<u8>, needle: Seq<u8>) -> Option<int> {
    if needle.len() > 0 && exists|p: int| bytes_at(hay, needle, p) {
        Some(choose|p: int| bytes_at(hay, needle, p) && forall|q: int| 0 <= q < p ==> !bytes_at(hay, needle, q))
    } else {
        None
    }
}

/// Where the first `needle` starts in `hay`, if anywhere.
pub fn find(hay: &[u8], needle: &[u8]) -> (r: Option<usize>)
    ensures
        match r {
            Some(p) => needle@.len() > 0 && bytes_at(hay@, needle@, p as int) && forall|q: int|
                0 <= q < p ==> !bytes_at(hay@, needle@, q),
            None => needle@.len() == 0 || forall|p: int| !bytes_at(hay@, needle@, p),
        },
{
    if needle.len() == 0 {
        return None;
    }
    if needle.len() > hay.len() {
        return None;
    }
    let n = needle.len();
    let last = hay.len() - n;
    let mut p: usize = 0;
    while p <= last
        invariant
            n == needle@.len(),
            n > 0,
            last + n == hay@.len(),
            hay@.len() <= usize::MAX,
            p <= last + 1,
            forall|q: int| 0 <= q < p ==> !bytes_at(hay@, needle@, q),
        decreases last + 1 - p,
    {
        let mut k: usize = 0;
        let mut same = true;
        while k < n && same
            invariant
                n == needle@.len(),
                p <= last,
                last + n == hay@.len(),
                hay@.len() <= usize::MAX,
                k <= n,
                forall|j: int| 0 <= j < k ==> hay@[p + j] == needle@[j],
                !same ==> k < n && hay@[p + k] != needle@[k as int],
            decreases n - k + (if same { 1int } else { 0int }),
        {
            if hay[p + k] == needle[k] {
                k += 1;
            } else {
                same = false;
            }
        }
        if k == n {
            proof {
                assert(hay@.subrange(p as int, p + n) =~= needle@);
            }
            return Some(p);
        }
        proof {
            assert(!bytes_at(hay@, needle@, p as int)) by {
                if bytes_at(hay@, needle@, p as int) {
                    assert(hay@.subrange(p as int, p + n)[k as int] == hay@[p + k]);
                }
            }
        }
        p += 1;
    }
    proof {
        assert forall|q: int| !bytes_at(hay@, needle@, q) by {}
    }
    None
}

/// The bytes that open a Primary Device Attributes reply: `ESC [ ?`.
pub open spec fn da_prefix() -> Seq<u8> {
    seq![0x1bu8, 0x5bu8, 0x3fu8]
}

/// A Primary Device Attributes reply looks like `ESC [ ? … c`: some `c` comes
/// after the first `ESC [ ?`.
pub open spec fn da_replied(buf: Seq<u8>) -> bool {
    exists|i: int, j: int|
        #![trigger bytes_at(buf, da_prefix(), i), buf[j]]
        bytes_at(buf, da_prefix(), i) && (forall|q: int| 0 <= q < i ==> !bytes_at(buf, da_prefix(), q))
            && i <= j < buf.len() && buf[j] == 0x63u8
}

/// Whether `buf` holds a complete Primary Device Attributes reply.
pub fn has_da_reply(buf: &[u8]) -> (r: bool)
    ensures
        r == da_replied(buf@),
{
    let prefix: [u8; 3] = [0x1b, 0x5b, 0x3f];
    proof {
        assert(prefix@ =~= da_prefix());
    }
    match find(buf, prefix.as_slice()) {
        Some(i) => {
            let r = has_byte_from(buf, i, 0x63);
            proof {
                if r {
                    let j = choose|j: int| i <= j < buf@.len() && buf@[j] == 0x63u8;
                    assert(bytes_at(buf@, da_prefix(), i as int) && buf@[j] == 0x63u8);
                }
                if da_replied(buf@) {
                    let (a, b) = choose|a: int, b: int|
                        #![trigger bytes_at(buf@, da_prefix(), a), buf@[b]]
                        bytes_at(buf@, da_prefix(), a) && (forall|q: int|
                            0 <= q < a ==> !bytes_at(buf@, da_prefix(), q)) && a <= b < buf@.len()
                            && buf@[b] == 0x63u8;
                    assert(a == i) by {
                        if a > i {
                            assert(bytes_at(buf@, da_prefix(), i as int));
                        }
                    }
                    assert(buf@[b] == 0x63u8);
                }
            }
            r
        },
        None => false,
    }
}

/// Whether byte `b` occurs in `buf` at or after position `from`.
fn has_byte_from(buf: &[u8], from: usize, b: u8) -> (r: bool)
    ensures
        r == exists|j: int| from <= j < buf@.len() && buf@[j] == b,
{
    let mut j = from;
    while j < buf.len()
        invariant
            from <= j,
            forall|k: int| from <= k < j ==> buf@[k] != b,
        decreases buf.len() - j,
    {
        if buf[j] == b {
            return true;
        }
        j += 1;
    }
    false
}

/// The `i=<id>;OK` reply a terminal sends for a graphics query it supports.
pub open spec fn ok_reply(id: u32) -> Seq<u8> {
    if id == DIRECT_ID {
        // "i=4242;OK"
        seq![0x69u8, 0x3d, 0x34, 0x32, 0x34, 0x32, 0x3b, 0x4f, 0x4b]
    } else {
        // "i=4243;OK"
        seq![0x69u8, 0x3d, 0x34, 0x32, 0x34, 0x33, 0x3b, 0x4f, 0x4b]
    }
}

/// What the terminal's replies `buf` say it supports: graphics when it
/// acknowledged the direct query, shared memory when it also acknowledged the
/// shared-memory one and the caller allowed that transport.
pub fn graphics_support(buf: &[u8], allow_shm: bool) -> (r: GraphicsSupport)
    ensures
        r.graphics == exists|p: int| bytes_at(buf@, ok_reply(DIRECT_ID), p),
        r.shm == (r.graphics && allow_shm && exists|p: int| bytes_at(buf@, ok_reply(SHM_ID), p)),
{
    let direct: [u8; 9] = [0x69, 0x3d, 0x34, 0x32, 0x34, 0x32, 0x3b, 0x4f, 0x4b];
    let shm: [u8; 9] = [0x69, 0x3d, 0x34, 0x32, 0x34, 0x33, 0x3b, 0x4f, 0x4b];
    proof {
        assert(direct@ =~= ok_reply(DIRECT_ID));
        assert(shm@ =~= ok_reply(SHM_ID));
    }
    let graphics = find(buf, direct.as_slice()).is_some();
    let shm_ok = graphics && allow_shm && find(buf, shm.as_slice()).is_some();
    GraphicsSupport { graphics, shm: shm_ok }
}

/// The queries sent to find out what the terminal supports: a 1×1 RGB image
/// over the direct transport, the same over shared memory when an object
/// named `shm_name` holds its pixels, then a Primary Device Attributes
/// request, which every terminal answers, as the sentinel.
pub open spec fn query_of(shm_name: Option<Seq<char>>) -> Seq<u8> {
    ascii("\x1b_Gi=4242,a=q,s=1,v=1,f=24,t=d;AAAA\x1b\\"@) + (match shm_name {
        Some(n) => ascii("\x1b_Gi=4243,a=q,s=1,v=1,f=24,t=s,S=3;"@) + base64_of(ascii(n)) + ascii(
            "\x1b\\"@,
        ),
        None => Seq::empty(),
    }) + ascii("\x1b[c"@)
}

/// The bytes of the support queries (see [`query_of`]).
pub fn query_bytes(shm_name: Option<&str>) -> (r: Vec<u8>)
    requires
        shm_name matches Some(n) ==> 4 * (n@.len() / 3) + 4 <= usize::MAX,
    ensures
        r@ == query_of(
            match shm_name {
                Some(n) => Some(n@),
                None => None,
            },
        ),
{
    let mut out: Vec<u8> = Vec::new();
    push_ascii(&mut out, "\x1b_Gi=4242,a=q,s=1,v=1,f=24,t=d;AAAA\x1b\\");
    let ghost first = out@;
    match shm_name {
        Some(n) => {
            let mut name: Vec<u8> = Vec::new();
            push_ascii(&mut name, n);
            let mut b64 = base64_encode(name.as_slice());
            push_ascii(&mut out, "\x1b_Gi=4243,a=q,s=1,v=1,f=24,t=s,S=3;");
            out.append(&mut b64);
            push_ascii(&mut out, "\x1b\\");
        },
        None => {},
    }
    push_ascii(&mut out, "\x1b[c");
    proof {
        assert(out@ =~= query_of(
            match shm_name {
                Some(n) => Some(n@),
                None => None,
            },
        ));
    }
    out
}

} // verus!
