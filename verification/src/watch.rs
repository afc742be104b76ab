//! The homescreen watches its configuration directory with inotify, so an
//! atomic replace (`write` + `rename`) still notifies it. This decodes one
//! read of the inotify descriptor: did any event name the file?

use vstd::prelude::*;

verus! {

/// Size of `struct inotify_event` before its name: `wd`, `mask`, `cookie`, `len`.
pub const EVENT_HEADER: usize = 16;
/// Bytes read from the descriptor at a time.
pub const READ_BUF: usize = 4096;

/// The `u32` at `i`, least significant byte first (the byte order of the
/// targets).
pub open spec fn le_u32(b: Seq<u8>, i: int) -> int {
    b[i] + b[i + 1] * 0x100 + b[i + 2] * 0x1_0000 + b[i + 3] * 0x100_0000
}

/// Index of the first NUL at or after `k`, or the length.
pub open spec fn nul_at(b: Seq<u8>, k: int) -> int
    decreases b.len() - k,
{
    if k < 0 || k >= b.len() {
        b.len() as int
    } else if b[k] == 0 {
        k
    } else {
        nul_at(b, k + 1)
    }
}

/// The name in an event's name field: up to its first NUL.
pub open spec fn event_name(field: Seq<u8>) -> Seq<u8> {
    field.take(nul_at(field, 0))
}

/// Whether an event at `off` or after, in the read `buf`, names `name`.
/// Events are a header and `len` name bytes; an event cut off by the end
/// of the read ends it.
pub open spec fn names_from(buf: Seq<u8>, name: Seq<u8>, off: int) -> bool
    decreases buf.len() - off,
{
    if off < 0 || off + EVENT_HEADER > buf.len() {
        false
    } else {
        let len = le_u32(buf, off + 12);
        let start = off + EVENT_HEADER;
        if start + len > buf.len() {
            false
        } else {
            (len > 0 && event_name(buf.subrange(start, start + len)) == name) || names_from(
                buf,
                name,
                start + len,
            )
        }
    }
}

proof fn lemma_nul_at(b: Seq<u8>, k: int)
    requires
        0 <= k <= b.len(),
    ensures
        k <= nul_at(b, k) <= b.len(),
        nul_at(b, k) < b.len() ==> b[nul_at(b, k)] == 0,
        forall|i: int| k <= i < nul_at(b, k) ==> b[i] != 0,
    decreases b.len() - k,
{
    if k < b.len() && b[k] != 0 {
        lemma_nul_at(b, k + 1);
    }
}

/// Whether the read `buf` holds an event for the file `name`.
pub fn read_names_file(buf: &[u8], name: &[u8]) -> (b: bool)
    requires
        buf@.len() <= READ_BUF,
    ensures
        b == names_from(buf@, name@, 0),
{
    let n = buf.len();
    let mut off: usize = 0;
    let mut changed = false;
    while off + EVENT_HEADER <= n
        invariant
            n == buf@.len(),
            n <= READ_BUF,
            off <= n,
            names_from(buf@, name@, 0) == (changed || names_from(buf@, name@, off as int)),
        decreases n - off,
    {
        let len = buf[off + 12] as u64 + buf[off + 13] as u64 * 0x100 + buf[off + 14] as u64
            * 0x1_0000 + buf[off + 15] as u64 * 0x100_0000;
        let start = off + EVENT_HEADER;
        if len > 0 && len <= (n - start) as u64 {
            let l = len as usize;
            let ghost field = buf@.subrange(start as int, start + l);
            let mut end: usize = 0;
            while end < l && buf[start + end] != 0
                invariant
                    start + l <= n,
                    n == buf@.len(),
                    0 <= end <= l,
                    field == buf@.subrange(start as int, start + l),
                    forall|i: int| 0 <= i < end ==> field[i] != 0,
                decreases l - end,
            {
                end = end + 1;
            }
            proof {
                lemma_nul_at(field, 0);
                if nul_at(field, 0) < end {
                    assert(field[nul_at(field, 0)] == 0);
                }
                if end < l {
                    assert(field[end as int] == 0);
                }
            }
            assert(nul_at(field, 0) == end);
            let same = end == name.len() && bytes_equal(buf, start, name);
            assert(same == (event_name(field) == name@)) by {
                if end == name@.len() {
                    if same {
                        assert(event_name(field) =~= name@);
                    } else {
                        let i = choose|i: int| 0 <= i < end && buf@[start + i] != name@[i];
                        assert(event_name(field)[i] == buf@[start + i]);
                    }
                } else {
                    assert(event_name(field).len() != name@.len());
                }
            }
            if same {
                changed = true;
            }
            off = start + l;
        } else if len == 0 {
            off = start;
        } else {
            off = n;
        }
    }
    changed
}

/// Whether `buf[start..start + name.len()]` equals `name`.
fn bytes_equal(buf: &[u8], start: usize, name: &[u8]) -> (b: bool)
    requires
        start + name@.len() <= buf@.len(),
        buf@.len() <= READ_BUF,
    ensures
        b == forall|i: int| 0 <= i < name@.len() ==> buf@[start + i] == name@[i],
{
    let mut i: usize = 0;
    while i < name.len()
        invariant
            start + name@.len() <= buf@.len(),
            buf@.len() <= READ_BUF,
            0 <= i <= name@.len(),
            forall|j: int| 0 <= j < i ==> buf@[start + j] == name@[j],
        decreases name@.len() - i,
    {
        if buf[start + i] != name[i] {
            return false;
        }
        i = i + 1;
    }
    true
}

} // verus!
