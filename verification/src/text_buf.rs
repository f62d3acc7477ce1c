//! Fixed-capacity staging buffer for one line of text.
//!
//! Writes append at a cursor and are best effort: bytes beyond the
//! capacity are dropped, never reported as an error.  When the cut would
//! fall inside a multi-byte UTF-8 sequence, the write truncates back to
//! the last complete sequence boundary, so the content is valid UTF-8 at
//! all times.

use vstd::prelude::*;
use vstd::utf8::valid_utf8;
use vstd::utf8::is_char_boundary;
use vstd::utf8::encode_utf8_valid_utf8;
use vstd::utf8::valid_utf8_split;
use vstd::utf8::valid_utf8_concat;
use vstd::utf8::is_char_boundary_start_end_of_seq;
use vstd::utf8::is_char_boundary_iff_not_is_continuation_byte;
use vstd::string::StringSliceAdditionalSpecFns;

verus! {

/// Capacity of the buffer in bytes.
pub const BUF_CAPACITY: usize = 64;

/// How many bytes of `s` a write takes when `room` bytes are free: all of
/// them when they fit, otherwise the longest prefix of at most `room`
/// bytes that ends on a character boundary.
pub open spec fn fit_len(s: Seq<u8>, room: int) -> int
    recommends
        valid_utf8(s),
    decreases room,
{
    if room <= 0 {
        0
    } else if s.len() <= room {
        s.len() as int
    } else if is_char_boundary(s, room) {
        room
    } else {
        fit_len(s, room - 1)
    }
}

/// The number of free bytes a buffer with `len` used bytes still has.
pub open spec fn spec_room(len: int) -> int {
    BUF_CAPACITY - len
}

/// A fixed-capacity text buffer: a fixed backing array and a write
/// cursor, no allocation.  Its view is the byte content between the
/// start and the cursor.
#[derive(Clone, Debug)]
pub struct FmtBuf {
    buf: [u8; 64],
    cursor: usize,
}

impl View for FmtBuf {
    type V = Seq<u8>;

    closed spec fn view(&self) -> Seq<u8> {
        self.buf@.take(self.cursor as int)
    }
}

#[verifier::external_type_specification]
#[verifier::external_body]
pub struct ExUtf8Error(core::str::Utf8Error);

/// Relies on core::str::from_utf8: it returns Ok exactly when the bytes
/// are valid UTF-8, and the returned text is those same bytes.
pub assume_specification[ core::str::from_utf8 ](v: &[u8]) -> (r: Result<&str, core::str::Utf8Error>)
    ensures
        r is Ok <==> valid_utf8(v@),
        r matches Ok(s) ==> s.spec_bytes() == v@,
;

/// What well-formedness gives of the content: it fits the capacity and
/// is valid UTF-8.
pub proof fn lemma_wf_content(b: FmtBuf)
    requires
        b.wf(),
    ensures
        b@.len() <= BUF_CAPACITY,
        valid_utf8(b@),
{
}

/// A cut at `k` keeps at most `min(room, s.len())` bytes, lands on a
/// character boundary, and keeps everything when the bytes fit; the kept
/// prefix of a valid UTF-8 sequence is itself valid UTF-8.
pub proof fn lemma_fit_len_is_valid_cut(s: Seq<u8>, room: int)
    requires
        valid_utf8(s),
        room >= 0,
    ensures
        0 <= fit_len(s, room) <= room,
        fit_len(s, room) <= s.len(),
        s.len() <= room ==> fit_len(s, room) == s.len(),
        is_char_boundary(s, fit_len(s, room)),
        valid_utf8(s.take(fit_len(s, room))),
    decreases room,
{
    is_char_boundary_start_end_of_seq(s);
    if room > 0 && s.len() > room && !is_char_boundary(s, room) {
        lemma_fit_len_is_valid_cut(s, room - 1);
    }
    let k = fit_len(s, room);
    valid_utf8_split(s, k);
    assert(s.take(k) == s.subrange(0, k));
}

impl FmtBuf {
    /// The cursor never exceeds the capacity and the content is always
    /// valid UTF-8 (see [`lemma_wf_content`]).
    pub closed spec fn wf(self) -> bool {
        self.cursor <= BUF_CAPACITY && valid_utf8(self@)
    }

    /// A fresh, empty buffer.
    pub fn new() -> (b: FmtBuf)
        ensures
            b.wf(),
            b@ == Seq::<u8>::empty(),
    {
        let b = FmtBuf { buf: [0u8; 64], cursor: 0 };
        proof {
            assert(b@ =~= Seq::<u8>::empty());
        }
        b
    }

    /// Moves the cursor back to the start; the buffer reads as empty.
    /// The backing storage is not cleared.
    pub fn reset(&mut self)
        ensures
            final(self).wf(),
            final(self)@ == Seq::<u8>::empty(),
    {
        self.cursor = 0;
        proof {
            assert(self@ =~= Seq::<u8>::empty());
        }
    }

    /// The content so far, as bytes.
    pub fn as_bytes(&self) -> (r: &[u8])
        requires
            self.wf(),
        ensures
            r@ == self@,
    {
        vstd::slice::slice_subrange(self.buf.as_slice(), 0, self.cursor)
    }

    /// The content so far, as validated text.
    pub fn as_str(&self) -> (r: &str)
        requires
            self.wf(),
        ensures
            r.spec_bytes() == self@,
    {
        let content = vstd::slice::slice_subrange(self.buf.as_slice(), 0, self.cursor);
        match core::str::from_utf8(content) {
            Ok(s) => s,
            Err(_) => vstd::pervasive::unreached(),
        }
    }

    /// Appends as much of `b` as fits, cutting only on a UTF-8 character
    /// boundary; the rest is silently dropped.
    pub fn write_bytes(&mut self, b: &[u8])
        requires
            old(self).wf(),
            valid_utf8(b@),
        ensures
            final(self).wf(),
            final(self)@ == old(self)@ + b@.take(fit_len(b@, spec_room(old(self)@.len() as int))),
    {
        let room: usize = BUF_CAPACITY - self.cursor;
        let mut k: usize = if b.len() <= room {
            b.len()
        } else {
            room
        };
        proof {
            is_char_boundary_start_end_of_seq(b@);
        }
        while k < b.len() && 0x80 <= b[k] && b[k] < 0xC0
            invariant
                0 <= k <= b.len(),
                k <= room,
                valid_utf8(b@),
                b@.len() > room ==> fit_len(b@, room as int) == fit_len(b@, k as int),
                b@.len() <= room ==> k == b@.len(),
            decreases k,
        {
            proof {
                is_char_boundary_iff_not_is_continuation_byte(b@, k as int);
                assert(!is_char_boundary(b@, k as int));
                assert(k > 0) by {
                    is_char_boundary_start_end_of_seq(b@);
                }
            }
            k = k - 1;
        }
        proof {
            lemma_fit_len_is_valid_cut(b@, room as int);
            if b@.len() <= room {
                assert(fit_len(b@, room as int) == b@.len());
            } else {
                if k < b@.len() {
                    is_char_boundary_iff_not_is_continuation_byte(b@, k as int);
                }
                assert(is_char_boundary(b@, k as int));
                assert(fit_len(b@, k as int) == k);
            }
            assert(fit_len(b@, room as int) == k);
        }
        let ghost pre = self@;
        let base: usize = self.cursor;
        let mut i: usize = 0;
        while i < k
            invariant
                0 <= i <= k,
                k <= b@.len(),
                base + k <= 64,
                self.cursor == base,
                self.buf@.len() == 64,
                forall|j: int| 0 <= j < base ==> self.buf@[j] == pre[j],
                forall|j: int| 0 <= j < i ==> self.buf@[base + j] == b@[j],
                pre == self.buf@.take(base as int),
            decreases k - i,
        {
            self.buf[base + i] = b[i];
            i = i + 1;
        }
        self.cursor = base + k;
        proof {
            assert(self@ =~= pre + b@.take(k as int));
            lemma_fit_len_is_valid_cut(b@, room as int);
            valid_utf8_concat(pre, b@.take(k as int));
            assert(self@ == pre + b@.take(fit_len(b@, spec_room(old(self)@.len() as int))));
        }
    }

    /// Appends as much of `s` as fits, per the byte-level contract of
    /// [`FmtBuf::write_bytes`]; a partial write is not an error.
    pub fn write_str(&mut self, s: &str)
        requires
            old(self).wf(),
        ensures
            final(self).wf(),
            final(self)@ == old(self)@ + s.spec_bytes().take(
                fit_len(s.spec_bytes(), spec_room(old(self)@.len() as int)),
            ),
    {
        proof {
            encode_utf8_valid_utf8(s@);
        }
        let b = s.as_bytes();
        self.write_bytes(b);
    }
}

} // verus!
