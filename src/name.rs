//! Domain names in label form: encoding from dotted text, and decoding from a
//! message buffer with compression pointers followed and inlined.
use vstd::prelude::*;
use vstd::string::StringSliceAdditionalSpecFns;
use crate::error::{DecodeError, NameError};

verus! {

/// A domain name as a sequence of length-prefixed labels ending in a zero byte.
/// Decoded names never hold a compression pointer.
#[derive(Debug)]
pub struct DomainName {
    pub bytes: Vec<u8>,
}

impl View for DomainName {
    type V = Seq<u8>;

    open spec fn view(&self) -> Seq<u8> {
        self.bytes@
    }
}

/// `n` is a pointer-free name: labels of 1 to 63 bytes, each after its length
/// byte, then a single zero byte that ends the sequence.
pub open spec fn is_plain_name(n: Seq<u8>) -> bool
    decreases n.len(),
{
    if n.len() == 0 {
        false
    } else if n[0] == 0 {
        n.len() == 1
    } else {
        n[0] < 64 && n[0] + 1 < n.len() && is_plain_name(n.skip(n[0] + 1))
    }
}

/// The offset that the compression pointer at `buf[pos]`, `buf[pos + 1]` names:
/// the low 14 bits of the two bytes.
pub open spec fn pointer_target(buf: Seq<u8>, pos: int) -> int {
    (buf[pos] - 0xC0) * 256 + buf[pos + 1]
}

/// Reads the name that starts at `pos`, following at most `jumps` compression
/// pointers. On success gives the inlined name and the number of bytes the
/// name occupies at `pos` (up to and including the zero byte, or the first
/// pointer).
pub open spec fn walk(buf: Seq<u8>, pos: int, jumps: nat) -> Result<(Seq<u8>, int), DecodeError>
    decreases jumps, buf.len() - pos,
{
    if pos < 0 || pos >= buf.len() {
        Err(DecodeError::Truncated)
    } else if buf[pos] == 0 {
        Ok((seq![0u8], 1))
    } else if buf[pos] >= 0xC0 {
        if pos + 1 >= buf.len() {
            Err(DecodeError::Truncated)
        } else if pointer_target(buf, pos) >= buf.len() {
            Err(DecodeError::PointerOutOfRange)
        } else if jumps == 0 {
            Err(DecodeError::PointerLoop)
        } else {
            match walk(buf, pointer_target(buf, pos), (jumps - 1) as nat) {
                Ok((name, _)) => Ok((name, 2)),
                Err(e) => Err(e),
            }
        }
    } else if buf[pos] >= 64 {
        Err(DecodeError::ReservedLabel)
    } else {
        let end = pos + 1 + buf[pos];
        if end > buf.len() {
            Err(DecodeError::Truncated)
        } else {
            match walk(buf, end, jumps) {
                Ok((rest, used)) => Ok((buf.subrange(pos, end) + rest, end - pos + used)),
                Err(e) => Err(e),
            }
        }
    }
}

/// The name at `pos`, with as many pointer jumps allowed as the buffer has
/// bytes: a walk that needs more must revisit a pointer, so it would never end.
pub open spec fn name_at(buf: Seq<u8>, pos: int) -> Result<(Seq<u8>, int), DecodeError> {
    walk(buf, pos, buf.len())
}

/// Puts `prefix` in front of a successful walk from a later position and fixes
/// the span: `span` if a pointer was already taken, else the distance walked
/// plus what the rest occupies.
pub open spec fn resume(
    prefix: Seq<u8>,
    walked: int,
    span: Option<int>,
    r: Result<(Seq<u8>, int), DecodeError>,
) -> Result<(Seq<u8>, int), DecodeError> {
    match r {
        Ok((rest, used)) => Ok(
            (
                prefix + rest,
                match span {
                    Some(s) => s,
                    None => walked + used,
                },
            ),
        ),
        Err(e) => Err(e),
    }
}

pub open spec fn decoded_view(r: Result<(DomainName, usize), DecodeError>) -> Result<
    (Seq<u8>, int),
    DecodeError,
> {
    match r {
        Ok((n, used)) => Ok((n@, used as int)),
        Err(e) => Err(e),
    }
}

/// What a successful walk gives is a plain name that lies within the buffer.
pub proof fn lemma_walk_ok(buf: Seq<u8>, pos: int, jumps: nat)
    requires
        walk(buf, pos, jumps) is Ok,
    ensures
        ({
            let (name, used) = walk(buf, pos, jumps)->Ok_0;
            is_plain_name(name) && 1 <= used && pos + used <= buf.len()
        }),
    decreases jumps, buf.len() - pos,
{
    if buf[pos] == 0 {
        assert(is_plain_name(seq![0u8]));
    } else if buf[pos] >= 0xC0 {
        lemma_walk_ok(buf, pointer_target(buf, pos), (jumps - 1) as nat);
    } else {
        let end = pos + 1 + buf[pos];
        lemma_walk_ok(buf, end, jumps);
        let rest = walk(buf, end, jumps)->Ok_0.0;
        let name = buf.subrange(pos, end) + rest;
        assert(name.skip(name[0] + 1) =~= rest);
    }
}

/// A plain name stored literally at `pos` reads back as itself, whatever the
/// jump allowance, and occupies exactly its own length.
pub proof fn lemma_walk_plain(buf: Seq<u8>, pos: int, jumps: nat, n: Seq<u8>)
    requires
        is_plain_name(n),
        0 <= pos,
        pos + n.len() <= buf.len(),
        buf.subrange(pos, pos + n.len()) == n,
    ensures
        walk(buf, pos, jumps) == Ok::<(Seq<u8>, int), DecodeError>((n, n.len() as int)),
    decreases n.len(),
{
    assert(buf[pos] == n[0]);
    if n[0] == 0 {
        assert(n =~= seq![0u8]);
    } else {
        let k = n[0] + 1;
        let rest = n.skip(k);
        assert(buf.subrange(pos + k, pos + k + rest.len()) =~= rest);
        lemma_walk_plain(buf, pos + k, jumps, rest);
        assert(buf.subrange(pos, pos + k) + rest =~= n);
    }
}

/// Decoding a name that is a compression pointer to offset `o` gives the same
/// name as decoding the plain name stored at `o`; the pointer occupies two
/// bytes where the literal name occupies its own length.
pub proof fn lemma_pointer_reads_target(buf: Seq<u8>, p: int, n: Seq<u8>)
    requires
        0 <= p,
        p + 1 < buf.len(),
        buf[p] >= 0xC0,
        is_plain_name(n),
        pointer_target(buf, p) + n.len() <= buf.len(),
        buf.subrange(pointer_target(buf, p), pointer_target(buf, p) + n.len()) == n,
    ensures
        name_at(buf, p) == Ok::<(Seq<u8>, int), DecodeError>((n, 2)),
        name_at(buf, pointer_target(buf, p)) == Ok::<(Seq<u8>, int), DecodeError>(
            (n, n.len() as int),
        ),
{
    let o = pointer_target(buf, p);
    lemma_walk_plain(buf, o, (buf.len() - 1) as nat, n);
    lemma_walk_plain(buf, o, buf.len(), n);
}

/// Decoding a compression pointer whose target lies at or past the end of the
/// buffer is an error.
pub proof fn lemma_pointer_out_of_range(buf: Seq<u8>, p: int)
    requires
        0 <= p,
        p + 1 < buf.len(),
        buf[p] >= 0xC0,
        pointer_target(buf, p) >= buf.len(),
    ensures
        name_at(buf, p) == Err::<(Seq<u8>, int), DecodeError>(DecodeError::PointerOutOfRange),
{
}

/// Index of the first `.` in `s`, or `s.len()` when there is none.
pub open spec fn first_dot(s: Seq<u8>) -> int
    decreases s.len(),
{
    if s.len() == 0 {
        0
    } else if s[0] == 0x2E {
        0
    } else {
        1 + first_dot(s.skip(1))
    }
}

/// The label form of the dotted name `s`: each dot-separated segment after
/// its length byte, then a zero byte. Every segment must hold 1 to 63 bytes.
pub open spec fn dotted_name(s: Seq<u8>) -> Result<Seq<u8>, NameError>
    decreases s.len(),
{
    let k = first_dot(s);
    if k <= 0 {
        Err(NameError::EmptyLabel)
    } else if k > 63 {
        Err(NameError::LabelTooLong)
    } else if k >= s.len() {
        Ok(seq![k as u8] + s + seq![0u8])
    } else {
        match dotted_name(s.skip(k + 1)) {
            Ok(rest) => Ok(seq![k as u8] + s.take(k) + rest),
            Err(e) => Err(e),
        }
    }
}

pub proof fn lemma_first_dot_bounds(s: Seq<u8>)
    ensures
        0 <= first_dot(s) <= s.len(),
    decreases s.len(),
{
    if s.len() > 0 && s[0] != 0x2E {
        lemma_first_dot_bounds(s.skip(1));
    }
}

/// `first_dot` is the index that a left-to-right scan for a dot stops at.
pub proof fn lemma_first_dot(s: Seq<u8>, i: int)
    requires
        0 <= i <= s.len(),
        forall|j: int| 0 <= j < i ==> s[j] != 0x2E,
        i == s.len() || s[i] == 0x2E,
    ensures
        first_dot(s) == i,
    decreases i,
{
    if i > 0 {
        lemma_first_dot(s.skip(1), i - 1);
    }
}

/// The label form of a dotted name is a plain name.
pub proof fn lemma_dotted_plain(s: Seq<u8>)
    requires
        dotted_name(s) is Ok,
    ensures
        is_plain_name(dotted_name(s)->Ok_0),
    decreases s.len(),
{
    let k = first_dot(s);
    let n = dotted_name(s)->Ok_0;
    lemma_first_dot_bounds(s);
    if k >= s.len() {
        assert(n.skip(k + 1) =~= seq![0u8]);
        assert(is_plain_name(seq![0u8]));
    } else {
        lemma_dotted_plain(s.skip(k + 1));
        assert(n.skip(k + 1) =~= dotted_name(s.skip(k + 1))->Ok_0);
    }
}

impl DomainName {
    /// Encodes a dotted name such as `example.com` into label form.
    pub fn from_dotted(name: &str) -> (r: Result<DomainName, NameError>)
        ensures
            match r {
                Ok(n) => dotted_name(name.spec_bytes()) == Ok::<Seq<u8>, NameError>(n@),
                Err(e) => dotted_name(name.spec_bytes()) == Err::<Seq<u8>, NameError>(e),
            },
            r matches Ok(n) ==> is_plain_name(n@),
    {
        let s = name.as_bytes();
        let len = s.len();
        let mut out: Vec<u8> = Vec::new();
        let mut start: usize = 0;
        proof {
            assert(s@.skip(0) =~= s@);
            if let Ok(rest) = dotted_name(s@) {
                assert(out@ + rest =~= rest);
            }
        }
        loop
            invariant
                len == s@.len(),
                s@ == name.spec_bytes(),
                start <= len,
                match dotted_name(s@.skip(start as int)) {
                    Ok(rest) => dotted_name(s@) == Ok::<Seq<u8>, NameError>(out@ + rest),
                    Err(e) => dotted_name(s@) == Err::<Seq<u8>, NameError>(e),
                },
            decreases len - start,
        {
            let ghost seg = s@.skip(start as int);
            let mut i: usize = start;
            while i < len && s[i] != 0x2E
                invariant
                    start <= i <= len,
                    len == s@.len(),
                    forall|j: int| start <= j < i ==> s@[j] != 0x2E,
                decreases len - i,
            {
                i = i + 1;
            }
            let k: usize = i - start;
            proof {
                lemma_first_dot(seg, k as int);
            }
            if k == 0 {
                return Err(NameError::EmptyLabel);
            }
            if k > 63 {
                return Err(NameError::LabelTooLong);
            }
            let ghost prev = out@;
            out.push(k as u8);
            let mut j: usize = start;
            while j < i
                invariant
                    start <= j <= i,
                    i <= len,
                    k <= 63,
                    len == s@.len(),
                    out@ == prev + seq![k as u8] + s@.subrange(start as int, j as int),
                decreases i - j,
            {
                out.push(s[j]);
                j = j + 1;
                assert(out@ =~= prev + seq![k as u8] + s@.subrange(start as int, j as int));
            }
            assert(seg.take(k as int) =~= s@.subrange(start as int, i as int));
            if i == len {
                let ghost body = out@;
                out.push(0u8);
                proof {
                    assert(seg =~= seg.take(k as int));
                    assert(out@ =~= prev + (seq![k as u8] + seg + seq![0u8]));
                    lemma_dotted_plain(s@);
                }
                return Ok(DomainName { bytes: out });
            }
            proof {
                assert(seg.skip(k + 1) =~= s@.skip(i + 1));
                if let Ok(rest) = dotted_name(s@.skip(i + 1)) {
                    assert(prev + (seq![k as u8] + seg.take(k as int) + rest) =~= out@ + rest);
                }
            }
            start = i + 1;
        }
    }

    /// Decodes the name that starts at `start` in `buf`, following compression
    /// pointers. Gives the inlined name and the number of bytes the name
    /// occupies at `start`.
    pub fn decode(buf: &[u8], start: usize) -> (r: Result<(DomainName, usize), DecodeError>)
        ensures
            decoded_view(r) == name_at(buf@, start as int),
            r matches Ok((n, _)) ==> is_plain_name(n@),
    {
        let len = buf.len();
        if start >= len {
            return Err(DecodeError::Truncated);
        }
        let mut out: Vec<u8> = Vec::new();
        let mut pos: usize = start;
        let mut jumps: usize = len;
        let mut span: Option<usize> = None;
        loop
            invariant
                len == buf@.len(),
                pos <= len,
                jumps <= len,
                span is None ==> start <= pos,
                name_at(buf@, start as int) == resume(
                    out@,
                    pos - start,
                    match span {
                        Some(s) => Some(s as int),
                        None => None,
                    },
                    walk(buf@, pos as int, jumps as nat),
                ),
            decreases jumps, len - pos,
        {
            if pos >= len {
                return Err(DecodeError::Truncated);
            }
            let b = buf[pos];
            if b == 0 {
                let ghost prev = out@;
                out.push(0u8);
                let used = match span {
                    Some(s) => s,
                    None => pos - start + 1,
                };
                proof {
                    assert(out@ =~= prev + seq![0u8]);
                    lemma_walk_ok(buf@, start as int, len as nat);
                }
                return Ok((DomainName { bytes: out }, used));
            } else if b >= 0xC0 {
                if pos + 1 >= len {
                    return Err(DecodeError::Truncated);
                }
                let target: usize = ((b - 0xC0) as usize) * 256 + (buf[pos + 1] as usize);
                if target >= len {
                    return Err(DecodeError::PointerOutOfRange);
                }
                if jumps == 0 {
                    return Err(DecodeError::PointerLoop);
                }
                if span.is_none() {
                    span = Some(pos - start + 2);
                }
                pos = target;
                jumps = jumps - 1;
            } else if b >= 64 {
                return Err(DecodeError::ReservedLabel);
            } else {
                if b as usize >= len - pos {
                    return Err(DecodeError::Truncated);
                }
                let end: usize = pos + 1 + b as usize;
                let ghost prev = out@;
                let mut i: usize = pos;
                while i < end
                    invariant
                        pos <= i <= end,
                        end <= len,
                        len == buf@.len(),
                        out@ == prev + buf@.subrange(pos as int, i as int),
                    decreases end - i,
                {
                    out.push(buf[i]);
                    i = i + 1;
                    assert(out@ =~= prev + buf@.subrange(pos as int, i as int));
                }
                proof {
                    let label = buf@.subrange(pos as int, end as int);
                    if let Ok((rest, _)) = walk(buf@, end as int, jumps as nat) {
                        assert(prev + (label + rest) =~= out@ + rest);
                    }
                }
                pos = end;
            }
        }
    }
}

} // verus!
