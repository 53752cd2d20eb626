//! Key-to-slot hashing and the command key extractor.
//!
//! A key maps to one of [`crate::SLOT_SIZE`] slots by a 16-bit cyclic
//! redundancy check (the XMODEM variant the cluster itself uses) reduced
//! modulo the slot count. If the key holds a hash tag — a non-empty substring
//! between the first `{` and the first `}` after it — only that substring is
//! hashed, so related keys can be colocated on one node.

use vstd::prelude::*;
use crate::SLOT_SIZE;
use crate::ClusterError;
use crate::resp::{
    encode_command, pack_command, unpack_command, unpack_first, unpack_first_spec, unpack_spec,
};

verus! {

/// The byte opening a hash tag: `{`.
pub const TAG_OPEN: u8 = 123;

/// The byte closing a hash tag: `}`.
pub const TAG_CLOSE: u8 = 125;

/// The checksum that `crc16_checksum` returns for the given bytes.
pub uninterp spec fn crc16_of(data: Seq<u8>) -> u16;

/// Relies on `crc16::State::<XMODEM>::calculate`: the XMODEM checksum of the
/// bytes, a pure function of its input.
#[verifier::external_body]
fn crc16_checksum(data: &[u8]) -> (r: u16)
    ensures
        r == crc16_of(data@),
{
    crc16::State::<crc16::XMODEM>::calculate(data)
}

/// The first index of `b` in `s` at or after `from`, or `s.len()` if `b`
/// does not occur there.
pub open spec fn idx_of(s: Seq<u8>, b: u8, from: int) -> int
    decreases s.len() - from,
{
    if 0 <= from < s.len() {
        if s[from] == b {
            from
        } else {
            idx_of(s, b, from + 1)
        }
    } else {
        s.len() as int
    }
}

/// The hash tag of `key`: the bytes between the first `{` and the first `}`
/// after it, provided there is at least one byte between them.
pub open spec fn hash_tag(key: Seq<u8>) -> Option<Seq<u8>> {
    let open = idx_of(key, TAG_OPEN, 0);
    if open < key.len() {
        let close = idx_of(key, TAG_CLOSE, open + 1);
        if close < key.len() && open + 1 < close {
            Some(key.subrange(open + 1, close))
        } else {
            None
        }
    } else {
        None
    }
}

/// The bytes that are actually hashed for `key`: its hash tag if it has one,
/// otherwise the whole key.
pub open spec fn hash_portion(key: Seq<u8>) -> Seq<u8> {
    match hash_tag(key) {
        Some(tag) => tag,
        None => key,
    }
}

/// The slot that `key` routes to.
pub open spec fn spec_slot(key: Seq<u8>) -> u16 {
    (crc16_of(hash_portion(key)) % SLOT_SIZE) as u16
}

/// Finds the first occurrence of `b` in `s` at or after `from`.
fn find_byte(s: &[u8], b: u8, from: usize) -> (r: usize)
    requires
        from <= s@.len(),
    ensures
        r == idx_of(s@, b, from as int),
        from <= r <= s@.len(),
        r < s@.len() ==> s@[r as int] == b,
{
    let n: usize = s.len();
    let mut i: usize = from;
    while i < n
        invariant
            from <= i <= n,
            n == s@.len(),
            idx_of(s@, b, from as int) == idx_of(s@, b, i as int),
        decreases n - i,
    {
        if s[i] == b {
            return i;
        }
        i = i + 1;
    }
    n
}

/// Computes the slot that `key` routes to. Deterministic: the result is a
/// pure function of the key bytes, and of the hash tag alone when the key
/// has one.
pub fn slot(key: &[u8]) -> (r: u16)
    ensures
        r == spec_slot(key@),
        r < SLOT_SIZE,
{
    let open = find_byte(key, TAG_OPEN, 0);
    let checksum: u16;
    if open < key.len() {
        let close = find_byte(key, TAG_CLOSE, open + 1);
        if close < key.len() && open + 1 < close {
            let mut tag: Vec<u8> = Vec::new();
            let mut i: usize = open + 1;
            while i < close
                invariant
                    open + 1 <= i <= close,
                    close < key@.len(),
                    tag@ =~= key@.subrange(open + 1, i as int),
                decreases close - i,
            {
                tag.push(key[i]);
                i = i + 1;
            }
            assert(tag@ =~= key@.subrange(open + 1, close as int));
            checksum = crc16_checksum(tag.as_slice());
        } else {
            checksum = crc16_checksum(key);
        }
    } else {
        checksum = crc16_checksum(key);
    }
    checksum % SLOT_SIZE
}

/// Law: the slot of a key is determined by the key bytes alone; equal keys
/// route to equal slots.
pub proof fn lemma_slot_deterministic(k1: Seq<u8>, k2: Seq<u8>)
    requires
        k1 == k2,
    ensures
        spec_slot(k1) == spec_slot(k2),
{
}

/// Law: keys with the same hash tag route to the same slot, whatever bytes
/// surround the tag.
pub proof fn lemma_same_tag_same_slot(k1: Seq<u8>, k2: Seq<u8>, tag: Seq<u8>)
    requires
        hash_tag(k1) == Some(tag),
        hash_tag(k2) == Some(tag),
    ensures
        spec_slot(k1) == spec_slot(k2),
{
    assert(hash_portion(k1) == tag);
    assert(hash_portion(k2) == tag);
}

/// The slot of a command given as its argument list: the slot of the key at
/// position 1, or `None` when the command has no key argument (position 0 is
/// the command name).
pub open spec fn spec_slot_for_command(args: Seq<Seq<u8>>) -> Option<u16> {
    if args.len() > 1 {
        Some(spec_slot(args[1]))
    } else {
        None
    }
}

/// Computes the slot a command routes to from its argument list, or `None`
/// when the command carries no key (fewer than two arguments).
pub fn slot_for_command(args: &Vec<Vec<u8>>) -> (r: Option<u16>)
    ensures
        r == spec_slot_for_command(args.deep_view()),
        r matches Some(s) ==> s < SLOT_SIZE,
        r is None <==> args@.len() <= 1,
{
    if args.len() > 1 {
        assert(args.deep_view()[1] == args@[1]@);
        Some(slot(args[1].as_slice()))
    } else {
        None
    }
}

/// Computes the slot of a command already framed for the wire: the framing
/// is parsed back and the key argument hashed. `Ok(None)` means the command
/// carries no key and must be routed to a random node; a malformed frame
/// fails fast rather than silently mis-route.
pub fn slot_for_packed_command(cmd: &[u8]) -> (r: Result<Option<u16>, ClusterError>)
    ensures
        (match r {
            Ok(sl) => unpack_spec(cmd@) matches Some(args) && sl == spec_slot_for_command(args)
                && (sl matches Some(s) ==> s < SLOT_SIZE),
            Err(e) => unpack_spec(cmd@) is None && e == ClusterError::MalformedCommand,
        }),
{
    match unpack_command(cmd) {
        Ok(args) => Ok(slot_for_command(&args)),
        Err(e) => Err(e),
    }
}

/// Computes the slot a packed batch of commands routes to: the slot of the
/// first command's key. A batch is routed as a whole by its first command
/// only — batches whose commands hash to different slots are out of scope.
/// `Ok(None)` means the first command carries no key; bytes that do not
/// start with a well-formed frame fail fast.
pub fn slot_for_packed_pipeline(cmd: &[u8]) -> (r: Result<Option<u16>, ClusterError>)
    ensures
        (match r {
            Ok(sl) => unpack_first_spec(cmd@) matches Some(p) && sl == spec_slot_for_command(
                p.0,
            ) && (sl matches Some(s) ==> s < SLOT_SIZE),
            Err(e) => unpack_first_spec(cmd@) is None && e == ClusterError::MalformedCommand,
        }),
{
    match unpack_first(cmd) {
        Ok((args, _end)) => Ok(slot_for_command(&args)),
        Err(e) => Err(e),
    }
}

/// An outgoing command under construction: its ordered argument list,
/// position 0 being the command name. The view is that list of byte strings.
pub struct ClusterCmd {
    args: Vec<Vec<u8>>,
}

impl View for ClusterCmd {
    type V = Seq<Seq<u8>>;

    closed spec fn view(&self) -> Seq<Seq<u8>> {
        self.args.deep_view()
    }
}

impl ClusterCmd {
    /// Starts an empty command.
    pub fn new() -> (r: ClusterCmd)
        ensures
            r@ == Seq::<Seq<u8>>::empty(),
    {
        let r = ClusterCmd { args: Vec::new() };
        proof {
            assert(r@ =~~= Seq::<Seq<u8>>::empty());
        }
        r
    }

    /// Appends one argument to the command.
    pub fn arg(&mut self, a: Vec<u8>)
        ensures
            final(self)@ == old(self)@.push(a@),
    {
        let ghost prev = self.args.deep_view();
        let ghost av = a@;
        self.args.push(a);
        proof {
            assert(self.args.deep_view() =~~= prev.push(av));
        }
    }

    /// Frames the command for the wire.
    pub fn get_packed_command(&self) -> (r: Vec<u8>)
        ensures
            r@ == encode_command(self@),
    {
        pack_command(&self.args)
    }

    /// The slot this command routes to, or `None` when it has no key
    /// argument.
    pub fn slot(&self) -> (r: Option<u16>)
        ensures
            r == spec_slot_for_command(self@),
            r matches Some(s) ==> s < SLOT_SIZE,
            r is None <==> self@.len() <= 1,
    {
        slot_for_command(&self.args)
    }
}

} // verus!
