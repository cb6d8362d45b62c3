//! Compatibility with tarballs that R's internal tar wrote.
//!
//! R's `utils::tar(internal = TRUE)`, which `R CMD INSTALL --build` uses,
//! records the size of a link's *target* in the header of the link. POSIX has
//! links carry no data, and these archives carry none: the next header follows
//! at once. A reader that believes the size skips bytes that are not there and
//! lands in the middle of a later entry.
//!
//! [`LinkSizeFix`] goes over the raw tar stream and sets the size of each link
//! entry to 0, with the checksum of the header brought up to date. It holds no
//! stream itself: [`LinkSizeFix::next_step`] says what to do next, and the
//! owner of the stream reports back what was read.

use vstd::prelude::*;
use vstd::slice::slice_subrange;
use vstd::slice::slice_to_vec;
use vstd::string::StringSliceAdditionalSpecFns;

use crate::strings;
use crate::text;

verus! {

/// The error that `str::from_utf8` gives.
#[verifier::external_type_specification]
#[verifier::external_body]
pub struct ExUtf8Error(core::str::Utf8Error);

/// `str::from_utf8` accepts exactly the valid UTF-8 sequences, and the string
/// that it gives has the bytes that it was given.
pub assume_specification[ core::str::from_utf8 ](v: &[u8]) -> (r: Result<
    &str,
    core::str::Utf8Error,
>)
    ensures
        r is Ok <==> vstd::utf8::valid_utf8(v@),
        r matches Ok(s) ==> s.spec_bytes() == v@,
;

/// The size of a tar block.
pub const BLOCK: usize = 512;

/// Where the size field of a header starts.
pub const SIZE_OFFSET: usize = 124;

/// How long the size field is.
pub const SIZE_LEN: usize = 12;

/// Where the checksum field of a header starts.
pub const CKSUM_OFFSET: usize = 148;

/// How long the checksum field is.
pub const CKSUM_LEN: usize = 8;

/// Where the type of the entry stands in a header.
pub const TYPEFLAG_OFFSET: usize = 156;

/// How many bytes come before the first NUL or space.
pub open spec fn digits_end(field: Seq<u8>) -> int
    decreases field.len(),
{
    if field.len() == 0 || field[0] == 0 || field[0] == 32 {
        0
    } else {
        1 + digits_end(field.skip(1))
    }
}

proof fn lemma_digits_end(field: Seq<u8>, i: int)
    requires
        0 <= i <= field.len(),
        forall|j: int| 0 <= j < i ==> field[j] != 0 && field[j] != 32,
        i < field.len() ==> field[i] == 0 || field[i] == 32,
    ensures
        digits_end(field) == i,
    decreases field.len(),
{
    if field.len() > 0 && i > 0 {
        assert(field[0] != 0 && field[0] != 32);
        let rest = field.skip(1);
        assert forall|j: int| 0 <= j < i - 1 implies rest[j] != 0 && rest[j] != 32 by {
            assert(rest[j] == field[j + 1]);
        }
        lemma_digits_end(rest, i - 1);
    }
}

/// The number in an octal size field. A field whose top bit is set (a binary
/// number) or that holds anything but octal digits has none; a blank one is 0.
pub open spec fn octal_size(field: Seq<u8>) -> Option<u64> {
    let raw = field.take(digits_end(field));
    if field.len() > 0 && field[0] >= 0x80 {
        None
    } else if !vstd::utf8::valid_utf8(raw) {
        None
    } else {
        let digits = strings::trim(vstd::utf8::decode_utf8(raw));
        if digits.len() == 0 {
            Some(0)
        } else {
            strings::parse_unsigned(digits, 8)
        }
    }
}

/// The size that a header records.
pub open spec fn header_size(h: Seq<u8>) -> Option<u64> {
    octal_size(h.subrange(SIZE_OFFSET as int, SIZE_OFFSET + SIZE_LEN))
}

/// A block of zeros, which marks the end of the archive.
pub open spec fn is_blank(h: Seq<u8>) -> bool {
    forall|i: int| 0 <= i < h.len() ==> h[i] == 0
}

/// The header of a hard link (`1`) or a symbolic link (`2`).
pub open spec fn is_link(h: Seq<u8>) -> bool {
    h[TYPEFLAG_OFFSET as int] == 49 || h[TYPEFLAG_OFFSET as int] == 50
}

/// A header that gives a link a size.
pub open spec fn is_bogus(h: Seq<u8>) -> bool {
    &&& !is_blank(h)
    &&& is_link(h)
    &&& header_size(h) matches Some(n)
    &&& n > 0
}

/// The size field that stands for 0: eleven digits and a NUL.
pub open spec fn zero_size() -> Seq<u8> {
    seq![48u8, 48, 48, 48, 48, 48, 48, 48, 48, 48, 48, 0]
}

/// `h` with its bytes from `at` on replaced by `field`.
pub open spec fn overwritten(h: Seq<u8>, at: int, field: Seq<u8>) -> Seq<u8> {
    h.take(at) + field + h.skip(at + field.len())
}

/// The sum of the first `n` bytes of a header, the checksum field counted as spaces.
pub open spec fn byte_sum(h: Seq<u8>, n: int) -> int
    decreases n,
{
    if n <= 0 {
        0
    } else {
        byte_sum(h, n - 1) + if CKSUM_OFFSET <= n - 1 < CKSUM_OFFSET + CKSUM_LEN {
            32
        } else {
            h[n - 1] as int
        }
    }
}

/// The checksum of a header.
pub open spec fn checksum(h: Seq<u8>) -> int {
    byte_sum(h, BLOCK as int)
}

/// The checksum field for `n`: six octal digits, a NUL and a space.
pub open spec fn checksum_field(n: int) -> Seq<u8> {
    seq![
        (48 + n / 32768 % 8) as u8,
        (48 + n / 4096 % 8) as u8,
        (48 + n / 512 % 8) as u8,
        (48 + n / 64 % 8) as u8,
        (48 + n / 8 % 8) as u8,
        (48 + n % 8) as u8,
        0,
        32,
    ]
}

/// The header that goes out where `h` came in.
pub open spec fn fixed_header(h: Seq<u8>) -> Seq<u8> {
    if is_bogus(h) {
        let z = overwritten(h, SIZE_OFFSET as int, zero_size());
        overwritten(z, CKSUM_OFFSET as int, checksum_field(checksum(z)))
    } else {
        h
    }
}

/// How many bytes of data, padding included, follow the header `h`.
pub open spec fn data_len(h: Seq<u8>) -> int {
    if is_blank(h) || is_bogus(h) {
        0
    } else {
        match header_size(h) {
            Some(n) => (n + 511) / 512 * 512,
            None => 0,
        }
    }
}

/// How much of the data after the header of `s` is there.
pub open spec fn data_there(s: Seq<u8>) -> int {
    let d = data_len(s.take(BLOCK as int));
    if d <= s.len() - BLOCK {
        d
    } else {
        s.len() - BLOCK
    }
}

/// The stream that goes out where `s` comes in.
pub open spec fn fixed_stream(s: Seq<u8>) -> Seq<u8>
    decreases s.len(),
{
    if s.len() < BLOCK {
        s
    } else {
        proof {
            lemma_data_len(s.take(BLOCK as int));
        }
        let d = data_there(s);
        fixed_header(s.take(BLOCK as int)) + s.subrange(BLOCK as int, BLOCK + d) + fixed_stream(
            s.skip(BLOCK + d),
        )
    }
}

/// A stream in which no link has a size.
pub open spec fn conforming(s: Seq<u8>) -> bool
    decreases s.len(),
{
    if s.len() < BLOCK {
        true
    } else {
        proof {
            lemma_data_len(s.take(BLOCK as int));
        }
        !is_bogus(s.take(BLOCK as int)) && conforming(s.skip(BLOCK + data_there(s)))
    }
}

/// What a [`LinkSizeFix`] is in the middle of.
pub struct Progress {
    /// Bytes of a header that are still to be served.
    pub held: Seq<u8>,
    /// Bytes of data to pass through before the next header.
    pub passing: int,
    /// The inner stream has come to its end.
    pub ended: bool,
}

/// All that comes out from here on if `rest` is what the inner stream still holds.
pub open spec fn pending(p: Progress, rest: Seq<u8>) -> Seq<u8> {
    let d = if p.passing <= rest.len() {
        p.passing
    } else {
        rest.len() as int
    };
    p.held + rest.take(d) + if p.ended {
        seq![]
    } else {
        fixed_stream(rest.skip(d))
    }
}

/// What to do for a reader that asks for bytes.
pub enum ReadStep {
    /// Nothing: there are no bytes to hand out.
    Done,
    /// Hand out these bytes.
    Serve(Vec<u8>),
    /// Read once from the inner stream, at most so many bytes, hand out what
    /// came, and report its length to [`LinkSizeFix::passed`].
    PassThrough(usize),
    /// Read from the inner stream, at most [`LinkSizeFix::wanted`] bytes at a
    /// time, and report what came to [`LinkSizeFix::absorb`], until
    /// [`LinkSizeFix::block_done`]; then call [`LinkSizeFix::finish_block`] and
    /// ask again.
    FillBlock,
}

/// What a step is for a reader that has room for `out_len` bytes: bytes in hand come
/// first, then data that passes through, then the next block.
pub open spec fn is_step(p: Progress, out_len: int, r: ReadStep, q: Progress) -> bool {
    if out_len == 0 {
        r is Done && q == p
    } else if p.held.len() > 0 {
        &&& r matches ReadStep::Serve(bytes)
        &&& bytes@.len() == if out_len <= p.held.len() {
            out_len
        } else {
            p.held.len() as int
        }
        &&& p.held == bytes@ + q.held
        &&& q.passing == p.passing
        &&& q.ended == p.ended
    } else if p.passing > 0 {
        &&& r matches ReadStep::PassThrough(n)
        &&& n == if out_len <= p.passing {
            out_len
        } else {
            p.passing
        }
        &&& q == p
    } else if p.ended {
        r is Done && q == p
    } else {
        r is FillBlock && q == p
    }
}

/// `n` bytes of data have passed through; none means the end of the inner stream.
pub open spec fn after_passing(p: Progress, n: int) -> Progress {
    Progress { held: p.held, passing: p.passing - n, ended: p.ended || n == 0 }
}

/// Some bytes of a block came in; none means the end of the inner stream.
pub open spec fn after_absorbing(p: Progress, chunk: Seq<u8>) -> Progress {
    Progress {
        held: p.held + chunk,
        passing: p.passing,
        ended: p.ended || chunk.len() == 0,
    }
}

/// The block has been read: a whole one is a header, and goes out fixed.
pub open spec fn after_block(p: Progress) -> Progress {
    if p.held.len() == BLOCK {
        Progress { held: fixed_header(p.held), passing: data_len(p.held), ended: p.ended }
    } else {
        p
    }
}

/// How many bytes the block lacks.
pub open spec fn lacking(p: Progress) -> int {
    BLOCK - p.held.len()
}

/// The block is whole, or as long as it gets.
pub open spec fn is_block_done(p: Progress) -> bool {
    p.held.len() == BLOCK || p.ended
}

/// Zeroes the size field of the link headers in a tar stream.
pub struct LinkSizeFix {
    /// Bytes of the current block that are still to be served.
    buf: Vec<u8>,
    /// Data bytes (padding included) to pass through before the next header.
    data_remaining: u64,
    /// The inner stream has come to its end.
    eof: bool,
}

impl View for LinkSizeFix {
    type V = Progress;

    closed spec fn view(&self) -> Progress {
        Progress { held: self.buf@, passing: self.data_remaining as int, ended: self.eof }
    }
}

/// Whether all bytes of `h` are zero.
fn blank(h: &[u8]) -> (r: bool)
    ensures
        r == is_blank(h@),
{
    let mut i: usize = 0;
    while i < h.len()
        invariant
            i <= h@.len(),
            forall|j: int| 0 <= j < i ==> h@[j] == 0,
        decreases h@.len() - i,
    {
        if h[i] != 0 {
            return false;
        }
        i += 1;
    }
    true
}

/// `h` with its bytes from `at` on replaced by `field`.
fn overwrite(h: &[u8], at: usize, field: &[u8]) -> (r: Vec<u8>)
    requires
        at + field@.len() <= h@.len(),
    ensures
        r@ == overwritten(h@, at as int, field@),
{
    let n = h.len();
    let mut r = slice_to_vec(slice_subrange(h, 0, at));
    let mut mid = slice_to_vec(field);
    let mut tail = slice_to_vec(slice_subrange(h, at + field.len(), n));
    r.append(&mut mid);
    r.append(&mut tail);
    assert(r@ =~= overwritten(h@, at as int, field@));
    r
}

/// The octal digit that stands at weight `weight` in `n`.
fn octal_digit(n: u64, weight: u64) -> (r: u8)
    requires
        weight > 0,
    ensures
        r == 48 + n as int / weight as int % 8,
{
    let d: u64 = n / weight % 8;
    48 + d as u8
}

impl LinkSizeFix {
    #[verifier::type_invariant]
    closed spec fn wf(self) -> bool {
        self.buf@.len() <= BLOCK
    }

    /// A fix at the start of a stream.
    pub fn new() -> (r: Self)
        ensures
            r@ == (Progress { held: seq![], passing: 0, ended: false }),
    {
        let r = LinkSizeFix { buf: Vec::new(), data_remaining: 0, eof: false };
        assert(r@.held =~= seq![]);
        r
    }

    /// The number in an octal size field; see [`octal_size`].
    pub fn parse_octal_size(field: &[u8]) -> (r: Option<u64>)
        ensures
            r == octal_size(field@),
    {
        if field.len() > 0 && field[0] >= 0x80 {
            return None;
        }
        let mut end: usize = 0;
        while end < field.len() && field[end] != 0 && field[end] != 32
            invariant
                end <= field@.len(),
                forall|j: int| 0 <= j < end ==> field@[j] != 0 && field@[j] != 32,
            decreases field@.len() - end,
        {
            end += 1;
        }
        proof {
            lemma_digits_end(field@, end as int);
        }
        let raw = slice_subrange(field, 0, end);
        assert(raw@ =~= field@.take(end as int));
        match core::str::from_utf8(raw) {
            Ok(s) => {
                proof {
                    vstd::utf8::encode_utf8_decode_utf8(s@);
                }
                let cs = text::chars_of(s);
                let digits = text::trim(cs.as_slice());
                if digits.len() == 0 {
                    Some(0)
                } else {
                    text::parse_unsigned(digits, 8)
                }
            },
            Err(_) => None,
        }
    }

    /// The header that goes out where `h` came in, and how many bytes of data
    /// follow it.
    pub fn normalize_header(h: &[u8]) -> (r: (Vec<u8>, u64))
        requires
            h@.len() == BLOCK,
        ensures
            r.0@ == fixed_header(h@),
            r.1 == data_len(h@),
    {
        proof {
            lemma_data_len(h@);
        }
        if blank(h) {
            return (slice_to_vec(h), 0);
        }
        let field = slice_subrange(h, SIZE_OFFSET, SIZE_OFFSET + SIZE_LEN);
        let size = match Self::parse_octal_size(field) {
            Some(n) => n,
            None => {
                return (slice_to_vec(h), 0);
            },
        };
        let typeflag = h[TYPEFLAG_OFFSET];
        if (typeflag == 49 || typeflag == 50) && size > 0 {
            let zero: Vec<u8> = vec![48u8, 48, 48, 48, 48, 48, 48, 48, 48, 48, 48, 0];
            assert(zero@ =~= zero_size());
            let z = overwrite(h, SIZE_OFFSET, zero.as_slice());
            let mut sum: u64 = 0;
            let mut i: usize = 0;
            while i < BLOCK
                invariant
                    i <= BLOCK,
                    z@.len() == BLOCK,
                    sum == byte_sum(z@, i as int),
                    sum <= 255 * i,
                decreases BLOCK - i,
            {
                if CKSUM_OFFSET <= i && i < CKSUM_OFFSET + CKSUM_LEN {
                    sum += 32;
                } else {
                    sum += z[i] as u64;
                }
                i += 1;
            }
            let mut cksum: Vec<u8> = Vec::new();
            cksum.push(octal_digit(sum, 32768));
            cksum.push(octal_digit(sum, 4096));
            cksum.push(octal_digit(sum, 512));
            cksum.push(octal_digit(sum, 64));
            cksum.push(octal_digit(sum, 8));
            cksum.push(octal_digit(sum, 1));
            cksum.push(0);
            cksum.push(32);
            assert(cksum@ =~= checksum_field(sum as int));
            let r = overwrite(z.as_slice(), CKSUM_OFFSET, cksum.as_slice());
            return (r, 0);
        }
        (slice_to_vec(h), (size + 511) / 512 * 512)
    }

    /// What to do for a reader that has room for `out_len` bytes.
    pub fn next_step(&mut self, out_len: usize) -> (r: ReadStep)
        ensures
            is_step(old(self)@, out_len as int, r, final(self)@),
    {
        proof {
            use_type_invariant(&*self);
        }
        if out_len == 0 {
            return ReadStep::Done;
        }
        if self.buf.len() > 0 {
            let have = self.buf.len();
            let n: usize = if out_len <= have {
                out_len
            } else {
                have
            };
            let bytes = slice_to_vec(slice_subrange(self.buf.as_slice(), 0, n));
            let left = slice_to_vec(slice_subrange(self.buf.as_slice(), n, have));
            assert(self.buf@ =~= bytes@ + left@);
            self.buf = left;
            return ReadStep::Serve(bytes);
        }
        if self.data_remaining > 0 {
            let n: usize = if out_len as u64 <= self.data_remaining {
                out_len
            } else {
                self.data_remaining as usize
            };
            return ReadStep::PassThrough(n);
        }
        if self.eof {
            return ReadStep::Done;
        }
        ReadStep::FillBlock
    }

    /// `n` bytes of data have gone from the inner stream to the reader; none
    /// means that the inner stream has come to its end.
    pub fn passed(&mut self, n: usize)
        requires
            n <= old(self)@.passing,
        ensures
            final(self)@ == after_passing(old(self)@, n as int),
    {
        proof {
            use_type_invariant(&*self);
        }
        if n == 0 {
            self.eof = true;
        }
        self.data_remaining = self.data_remaining - n as u64;
    }

    /// How many bytes the block lacks.
    pub fn wanted(&self) -> (r: usize)
        ensures
            r == lacking(self@),
    {
        proof {
            use_type_invariant(self);
        }
        BLOCK - self.buf.len()
    }

    /// These bytes came from the inner stream for the block; none means that it
    /// has come to its end.
    pub fn absorb(&mut self, chunk: &[u8])
        requires
            old(self)@.held.len() + chunk@.len() <= BLOCK,
        ensures
            final(self)@ == after_absorbing(old(self)@, chunk@),
    {
        proof {
            use_type_invariant(&*self);
        }
        if chunk.len() == 0 {
            self.eof = true;
        }
        let mut all = slice_to_vec(self.buf.as_slice());
        let mut more = slice_to_vec(chunk);
        all.append(&mut more);
        self.buf = all;
    }

    /// Whether the block is whole, or as long as it gets.
    pub fn block_done(&self) -> (r: bool)
        ensures
            r == is_block_done(self@),
    {
        proof {
            use_type_invariant(self);
        }
        self.buf.len() == BLOCK || self.eof
    }

    /// The block is read: a whole one is a header, and goes out fixed.
    pub fn finish_block(&mut self)
        ensures
            final(self)@ == after_block(old(self)@),
    {
        if self.buf.len() == BLOCK {
            let (h, n) = Self::normalize_header(self.buf.as_slice());
            self.data_remaining = n;
            proof {
                lemma_fixed_len(self.buf@);
            }
            self.buf = h;
        }
    }
}

proof fn lemma_digits_end_bounds(field: Seq<u8>)
    ensures
        0 <= digits_end(field) <= field.len(),
    decreases field.len(),
{
    if field.len() > 0 && field[0] != 0 && field[0] != 32 {
        lemma_digits_end_bounds(field.skip(1));
    }
}

/// No more characters than bytes.
proof fn lemma_decoded_len(b: Seq<u8>)
    requires
        vstd::utf8::valid_utf8(b),
    ensures
        vstd::utf8::decode_utf8(b).len() <= b.len(),
    decreases b.len(),
{
    if b.len() > 0 {
        lemma_decoded_len(vstd::utf8::pop_first_scalar(b));
    }
}

/// Eight to the power of `n`.
spec fn eights(n: nat) -> int
    decreases n,
{
    if n == 0 {
        1
    } else {
        8 * eights((n - 1) as nat)
    }
}

proof fn lemma_eights_grow(m: nat, n: nat)
    requires
        m <= n,
    ensures
        1 <= eights(m) <= eights(n),
    decreases n,
{
    if n > 0 {
        if m == n {
            lemma_eights_grow((m - 1) as nat, (n - 1) as nat);
        } else {
            lemma_eights_grow(m, (n - 1) as nat);
        }
    }
}

proof fn lemma_number_bound(s: Seq<char>)
    requires
        forall|j: int| 0 <= j < s.len() ==> strings::is_digit(#[trigger] s[j], 8),
    ensures
        strings::number(s, 8) < eights(s.len()),
    decreases s.len(),
{
    if s.len() > 0 {
        let p = s.drop_last();
        assert forall|j: int| 0 <= j < p.len() implies strings::is_digit(#[trigger] p[j], 8) by {
            assert(p[j] == s[j]);
        }
        lemma_number_bound(p);
        assert(strings::is_digit(s[s.len() - 1], 8));
    }
}

/// A number of twelve octal digits is small.
proof fn lemma_octal_small(field: Seq<u8>)
    requires
        field.len() == 12,
    ensures
        octal_size(field) matches Some(n) ==> n < 0x10_0000_0000,
{
    lemma_digits_end_bounds(field);
    let raw = field.take(digits_end(field));
    if field[0] < 0x80 && vstd::utf8::valid_utf8(raw) {
        lemma_decoded_len(raw);
        let t = vstd::utf8::decode_utf8(raw);
        strings::lemma_trim_len(t);
        let digits = strings::trim(t);
        if strings::parse_unsigned(digits, 8) is Some {
            let d = strings::without_plus(digits);
            lemma_number_bound(d);
            strings::lemma_number_grows(d, 8, d.len() as int);
            assert(d.take(d.len() as int) =~= d);
            lemma_eights_grow(d.len(), 12);
            assert(eights(12) == 0x10_0000_0000) by {
                reveal_with_fuel(eights, 13);
            }
        }
    }
}

/// The data after a header is less than any machine number can hold.
pub proof fn lemma_data_len(h: Seq<u8>)
    requires
        h.len() == BLOCK,
    ensures
        0 <= data_len(h) <= u64::MAX - 511,
        header_size(h) matches Some(n) ==> n <= u64::MAX - 1023,
{
    let field = h.subrange(SIZE_OFFSET as int, SIZE_OFFSET + SIZE_LEN);
    assert(field.len() == 12);
    lemma_octal_small(field);
}

proof fn lemma_fixed_len(h: Seq<u8>)
    requires
        h.len() == BLOCK,
    ensures
        fixed_header(h).len() == BLOCK,
{
}

/// A reading of a stream: how far the fix is, what the inner stream still
/// holds, and what has been handed out.
pub struct Reading {
    pub progress: Progress,
    pub rest: Seq<u8>,
    pub out: Seq<u8>,
}

/// Some bytes of the block in hand are served.
pub open spec fn serves(a: Reading, b: Reading) -> bool {
    &&& a.rest == b.rest
    &&& a.out.len() <= b.out.len()
    &&& b.out.take(a.out.len() as int) == a.out
    &&& a.progress.held == b.out.skip(a.out.len() as int) + b.progress.held
    &&& a.progress.passing == b.progress.passing
    &&& a.progress.ended == b.progress.ended
}

/// `n` bytes of data pass from the inner stream to the reader; none only where
/// the inner stream holds no more.
pub open spec fn passes(a: Reading, b: Reading, n: int) -> bool {
    &&& a.progress.held.len() == 0
    &&& 0 <= n <= a.progress.passing
    &&& n <= a.rest.len()
    &&& n == 0 ==> a.rest.len() == 0
    &&& b.rest == a.rest.skip(n)
    &&& b.out == a.out + a.rest.take(n)
    &&& b.progress == (Progress {
        held: a.progress.held,
        passing: a.progress.passing - n,
        ended: a.progress.ended || n == 0,
    })
}

/// The next block is read: a whole one goes out fixed, and what is left at the
/// end goes out as it is.
pub open spec fn reads_block(a: Reading, b: Reading) -> bool {
    &&& a.progress.held.len() == 0
    &&& a.progress.passing == 0
    &&& !a.progress.ended
    &&& b.out == a.out
    &&& if a.rest.len() >= BLOCK {
        &&& b.rest == a.rest.skip(BLOCK as int)
        &&& b.progress == (Progress {
            held: fixed_header(a.rest.take(BLOCK as int)),
            passing: data_len(a.rest.take(BLOCK as int)),
            ended: false,
        })
    } else {
        &&& b.rest.len() == 0
        &&& b.progress == (Progress { held: a.rest, passing: 0, ended: true })
    }
}

/// One thing that [`LinkSizeFix::next_step`] asks for is done.
pub open spec fn moves(a: Reading, b: Reading) -> bool {
    ||| serves(a, b)
    ||| exists|n: int| #[trigger] passes(a, b, n)
    ||| reads_block(a, b)
}

/// The start of a reading of `s`.
pub open spec fn start(s: Seq<u8>) -> Reading {
    Reading {
        progress: Progress { held: seq![], passing: 0, ended: false },
        rest: s,
        out: seq![],
    }
}

proof fn lemma_serves(a: Reading, b: Reading)
    requires
        serves(a, b),
    ensures
        a.out + pending(a.progress, a.rest) == b.out + pending(b.progress, b.rest),
{
    let bytes = b.out.skip(a.out.len() as int);
    assert(b.out =~= a.out + bytes);
    assert(a.out + pending(a.progress, a.rest) =~= b.out + pending(b.progress, b.rest));
}

/// The bytes that pass are the first of those to come, and the others stay to come.
#[verifier::spinoff_prover]
proof fn lemma_passed_come_first(a: Reading, b: Reading, n: int)
    requires
        passes(a, b, n),
    ensures
        pending(a.progress, a.rest) == a.rest.take(n) + pending(b.progress, b.rest),
{
    let d = if a.progress.passing <= a.rest.len() {
        a.progress.passing
    } else {
        a.rest.len() as int
    };
    let e = d - n;
    assert(a.rest.take(d) =~= a.rest.take(n) + b.rest.take(e));
    assert(a.rest.skip(d) =~= b.rest.skip(e));
    if n == 0 {
        assert(a.rest.skip(d) =~= seq![]);
        assert(fixed_stream(a.rest.skip(d)) =~= seq![]);
    }
    let tail = if b.progress.ended {
        seq![]
    } else {
        fixed_stream(b.rest.skip(e))
    };
    assert(pending(b.progress, b.rest) =~= b.rest.take(e) + tail);
    assert(pending(a.progress, a.rest) =~= a.rest.take(n) + (b.rest.take(e) + tail));
}

#[verifier::spinoff_prover]
proof fn lemma_passes(a: Reading, b: Reading, n: int)
    requires
        passes(a, b, n),
    ensures
        a.out + pending(a.progress, a.rest) == b.out + pending(b.progress, b.rest),
{
    lemma_passed_come_first(a, b, n);
    let rest = pending(b.progress, b.rest);
    assert(a.out + (a.rest.take(n) + rest) =~= (a.out + a.rest.take(n)) + rest);
}

proof fn lemma_reads_block(a: Reading, b: Reading)
    requires
        reads_block(a, b),
    ensures
        pending(a.progress, a.rest) == pending(b.progress, b.rest),
        b.progress.passing >= 0,
{
    assert(a.rest.take(0) =~= seq![]);
    assert(a.rest.skip(0) =~= a.rest);
    assert(pending(a.progress, a.rest) =~= fixed_stream(a.rest));
    if a.rest.len() >= BLOCK {
        let h = a.rest.take(BLOCK as int);
        lemma_data_len(h);
        let d = data_there(a.rest);
        assert(a.rest.subrange(BLOCK as int, BLOCK + d) =~= b.rest.take(d));
        assert(a.rest.skip(BLOCK + d) =~= b.rest.skip(d));
        assert(pending(b.progress, b.rest) =~= fixed_stream(a.rest));
    } else {
        assert(b.rest.take(0) =~= seq![]);
        assert(pending(b.progress, b.rest) =~= a.rest);
    }
}

/// One move keeps what has been handed out and what is still to come the same
/// in all.
pub proof fn law_move_keeps_stream(a: Reading, b: Reading)
    requires
        moves(a, b),
        a.progress.passing >= 0,
    ensures
        a.out + pending(a.progress, a.rest) == b.out + pending(b.progress, b.rest),
        b.progress.passing >= 0,
{
    if serves(a, b) {
        lemma_serves(a, b);
    } else if reads_block(a, b) {
        lemma_reads_block(a, b);
    } else {
        let n = choose|n: int| #[trigger] passes(a, b, n);
        lemma_passes(a, b, n);
    }
}

/// Whatever amounts are asked for and come in, what has been handed out and
/// what is still to come make up the fixed stream.
pub proof fn law_reading_gives_fixed_stream(s: Seq<u8>, run: Seq<Reading>)
    requires
        run.len() > 0,
        run[0] == start(s),
        forall|i: int| 0 <= i < run.len() - 1 ==> moves(#[trigger] run[i], run[i + 1]),
    ensures
        run.last().out + pending(run.last().progress, run.last().rest) == fixed_stream(s),
        run.last().progress.passing >= 0,
    decreases run.len(),
{
    if run.len() == 1 {
        assert(s.take(0) =~= seq![]);
        assert(s.skip(0) =~= s);
        assert(run[0].out + pending(run[0].progress, s) =~= fixed_stream(s));
    } else {
        let p = run.drop_last();
        assert forall|i: int| 0 <= i < p.len() - 1 implies moves(#[trigger] p[i], p[i + 1]) by {
            assert(moves(run[i], run[i + 1]));
        }
        law_reading_gives_fixed_stream(s, p);
        assert(moves(run[run.len() - 2], run[run.len() - 1]));
        law_move_keeps_stream(p.last(), run.last());
    }
}

/// Where the fix has nothing more to hand out, nothing more is to come.
pub proof fn law_done_is_the_end(p: Progress, rest: Seq<u8>)
    requires
        p.held.len() == 0,
        p.passing == 0,
        p.ended,
    ensures
        pending(p, rest) == Seq::<u8>::empty(),
{
    assert(pending(p, rest) =~= Seq::<u8>::empty());
}

/// The fixed stream is as long as the stream.
pub proof fn law_length_is_kept(s: Seq<u8>)
    ensures
        fixed_stream(s).len() == s.len(),
    decreases s.len(),
{
    if s.len() >= BLOCK {
        let h = s.take(BLOCK as int);
        lemma_data_len(h);
        lemma_fixed_len(h);
        law_length_is_kept(s.skip(BLOCK + data_there(s)));
    }
}

/// A stream in which no link has a size passes through unchanged.
pub proof fn law_conforming_passes_unchanged(s: Seq<u8>)
    requires
        conforming(s),
    ensures
        fixed_stream(s) == s,
    decreases s.len(),
{
    if s.len() >= BLOCK {
        let h = s.take(BLOCK as int);
        lemma_data_len(h);
        let d = data_there(s);
        law_conforming_passes_unchanged(s.skip(BLOCK + d));
        assert(s =~= h + s.subrange(BLOCK as int, BLOCK + d) + s.skip(BLOCK + d));
    }
}

/// The field that stands for 0 reads as 0.
proof fn lemma_zero_size()
    ensures
        octal_size(zero_size()) == Some(0u64),
{
    let field = zero_size();
    let zeros: Seq<char> = seq!['0', '0', '0', '0', '0', '0', '0', '0', '0', '0', '0'];
    lemma_digits_end(field, 11);
    let raw = field.take(11);
    assert(vstd::utf8::is_ascii_chars(zeros));
    vstd::utf8::is_ascii_chars_encode_utf8(zeros);
    assert(vstd::utf8::encode_utf8(zeros) =~= raw) by {
        assert forall|i: int| 0 <= i < 11 implies vstd::utf8::encode_utf8(zeros)[i] == raw[i] by {
            assert(zeros[i] as u8 == vstd::utf8::encode_utf8(zeros)[i]);
        }
    }
    vstd::utf8::encode_utf8_decode_utf8(zeros);
    vstd::utf8::encode_utf8_valid_utf8(zeros);
    assert(strings::trim(zeros) == zeros);
    lemma_zeros_number(zeros);
    assert(strings::parse_unsigned(zeros, 8) == Some(0u64));
}

proof fn lemma_zeros_number(s: Seq<char>)
    requires
        forall|i: int| 0 <= i < s.len() ==> s[i] == '0',
    ensures
        strings::number(s, 8) == 0,
    decreases s.len(),
{
    if s.len() > 0 {
        lemma_zeros_number(s.drop_last());
    }
}

/// A fixed header gives its link the size 0 and carries its own checksum; the
/// other fields are as they were, and there is nothing left to fix.
pub proof fn law_fixed_header(h: Seq<u8>)
    requires
        h.len() == BLOCK,
        is_bogus(h),
    ensures
        fixed_header(h).len() == BLOCK,
        header_size(fixed_header(h)) == Some(0u64),
        fixed_header(h).subrange(CKSUM_OFFSET as int, CKSUM_OFFSET + CKSUM_LEN) == checksum_field(
            checksum(fixed_header(h)),
        ),
        forall|i: int|
            0 <= i < BLOCK && !(SIZE_OFFSET <= i < SIZE_OFFSET + SIZE_LEN) && !(CKSUM_OFFSET <= i
                < CKSUM_OFFSET + CKSUM_LEN) ==> fixed_header(h)[i] == h[i],
        !is_bogus(fixed_header(h)),
        !is_blank(fixed_header(h)),
        data_len(fixed_header(h)) == 0,
{
    let z = overwritten(h, SIZE_OFFSET as int, zero_size());
    let f = fixed_header(h);
    lemma_zero_size();
    assert(f.subrange(SIZE_OFFSET as int, SIZE_OFFSET + SIZE_LEN) =~= zero_size());
    lemma_sum_ignores_field(z, f, BLOCK as int);
    assert(f.subrange(CKSUM_OFFSET as int, CKSUM_OFFSET + CKSUM_LEN) =~= checksum_field(
        checksum(f),
    ));
    assert(f[TYPEFLAG_OFFSET as int] == h[TYPEFLAG_OFFSET as int]);
}

/// A whole header of the stream starts at `p`.
pub open spec fn is_header_at(s: Seq<u8>, p: int) -> bool
    decreases s.len(),
{
    if s.len() < BLOCK {
        false
    } else if p == 0 {
        true
    } else {
        proof {
            lemma_data_len(s.take(BLOCK as int));
        }
        let n = BLOCK + data_there(s);
        p >= n && is_header_at(s.skip(n), p - n)
    }
}

/// The byte at `i` of a header is in its size field or in its checksum field.
pub open spec fn is_in_fixed_field(i: int) -> bool {
    ||| SIZE_OFFSET <= i < SIZE_OFFSET + SIZE_LEN
    ||| CKSUM_OFFSET <= i < CKSUM_OFFSET + CKSUM_LEN
}

/// The header of the stream at `p` gives a link a size, and the byte at `i` is in one
/// of its two fields that are written anew.
pub open spec fn is_rewritten_by(s: Seq<u8>, p: int, i: int) -> bool {
    &&& is_header_at(s, p)
    &&& is_bogus(s.subrange(p, p + BLOCK))
    &&& is_in_fixed_field(i - p)
}

proof fn lemma_header_is_within(s: Seq<u8>, p: int)
    requires
        is_header_at(s, p),
    ensures
        0 <= p <= s.len() - BLOCK,
    decreases s.len(),
{
    if p != 0 {
        lemma_data_len(s.take(BLOCK as int));
        let n = BLOCK + data_there(s);
        lemma_header_is_within(s.skip(n), p - n);
    }
}

/// In a whole stream nothing changes but the size and the checksum of headers that
/// give a link a size: every other byte goes out as it came in, at its place.
pub proof fn law_only_sizes_of_links_change(s: Seq<u8>, i: int)
    requires
        0 <= i < s.len(),
    ensures
        fixed_stream(s).len() == s.len(),
        fixed_stream(s)[i] == s[i] || exists|p: int| #[trigger] is_rewritten_by(s, p, i),
    decreases s.len(),
{
    law_length_is_kept(s);
    if s.len() >= BLOCK {
        let h = s.take(BLOCK as int);
        lemma_data_len(h);
        lemma_fixed_len(h);
        let n = BLOCK + data_there(s);
        let rest = s.skip(n);
        if i < BLOCK {
            assert(s.subrange(0, BLOCK as int) =~= h);
            if is_bogus(h) {
                law_fixed_header(h);
                if is_in_fixed_field(i) {
                    assert(is_rewritten_by(s, 0, i));
                }
            }
        } else if i >= n {
            law_only_sizes_of_links_change(rest, i - n);
            law_length_is_kept(rest);
            assert(fixed_stream(s)[i] == fixed_stream(rest)[i - n]);
            if fixed_stream(rest)[i - n] != rest[i - n] {
                let q = choose|q: int| #[trigger] is_rewritten_by(rest, q, i - n);
                lemma_header_is_within(rest, q);
                assert(rest.subrange(q, q + BLOCK) =~= s.subrange(q + n, q + n + BLOCK));
                assert(is_rewritten_by(s, q + n, i));
            }
        }
    }
}

/// The checksum does not depend on the checksum field.
proof fn lemma_sum_ignores_field(a: Seq<u8>, b: Seq<u8>, n: int)
    requires
        0 <= n <= BLOCK,
        a.len() == BLOCK,
        b.len() == BLOCK,
        forall|i: int|
            0 <= i < BLOCK && !(CKSUM_OFFSET <= i < CKSUM_OFFSET + CKSUM_LEN) ==> a[i] == b[i],
    ensures
        byte_sum(a, n) == byte_sum(b, n),
    decreases n,
{
    if n > 0 {
        lemma_sum_ignores_field(a, b, n - 1);
    }
}

/// The six digits of the checksum field write the checksum.
pub proof fn law_checksum_field_writes_checksum(h: Seq<u8>)
    requires
        h.len() == BLOCK,
    ensures
        ({
            let f = checksum_field(checksum(h));
            (f[0] - 48) * 32768 + (f[1] - 48) * 4096 + (f[2] - 48) * 512 + (f[3] - 48) * 64 + (f[4]
                - 48) * 8 + (f[5] - 48) == checksum(h)
        }),
{
    lemma_sum_bound(h, BLOCK as int);
    let n = checksum(h);
    assert(0 <= n < 262144);
    lemma_octal_digits(n);
    let f = checksum_field(n);
    assert(f[0] == 48 + n / 32768 % 8);
    assert(f[1] == 48 + n / 4096 % 8);
    assert(f[2] == 48 + n / 512 % 8);
    assert(f[3] == 48 + n / 64 % 8);
    assert(f[4] == 48 + n / 8 % 8);
    assert(f[5] == 48 + n % 8);
}

/// Six octal digits make up a number.
proof fn lemma_octal_digits(n: int)
    requires
        0 <= n < 262144,
    ensures
        n / 32768 % 8 * 32768 + n / 4096 % 8 * 4096 + n / 512 % 8 * 512 + n / 64 % 8 * 64 + n / 8
            % 8 * 8 + n % 8 == n,
{
    vstd::arithmetic::div_mod::lemma_div_denominator(n, 8, 8);
    vstd::arithmetic::div_mod::lemma_div_denominator(n, 64, 8);
    vstd::arithmetic::div_mod::lemma_div_denominator(n, 512, 8);
    vstd::arithmetic::div_mod::lemma_div_denominator(n, 4096, 8);
    let a = n / 8;
    let b = a / 8;
    let c = b / 8;
    let d = c / 8;
    let e = d / 8;
    assert(n == 8 * a + n % 8);
    assert(a == 8 * b + a % 8);
    assert(b == 8 * c + b % 8);
    assert(c == 8 * d + c % 8);
    assert(d == 8 * e + d % 8);
    assert(0 <= e < 8);
}

proof fn lemma_sum_bound(h: Seq<u8>, n: int)
    requires
        0 <= n <= BLOCK,
        h.len() == BLOCK,
    ensures
        0 <= byte_sum(h, n) <= 255 * n,
    decreases n,
{
    if n > 0 {
        lemma_sum_bound(h, n - 1);
    }
}

/// Fixing a fixed stream changes nothing.
pub proof fn law_fixing_twice_is_fixing_once(s: Seq<u8>)
    ensures
        fixed_stream(fixed_stream(s)) == fixed_stream(s),
    decreases s.len(),
{
    if s.len() >= BLOCK {
        let h = s.take(BLOCK as int);
        lemma_data_len(h);
        lemma_fixed_len(h);
        if is_bogus(h) {
            law_fixed_header(h);
        }
        let d = data_there(s);
        let rest = s.skip(BLOCK + d);
        law_fixing_twice_is_fixing_once(rest);
        law_length_is_kept(rest);
        let t = fixed_stream(s);
        let g = fixed_header(h);
        assert(t.take(BLOCK as int) =~= g);
        assert(fixed_header(g) == g);
        assert(data_len(g) == data_len(h));
        assert(data_there(t) == d);
        assert(t.subrange(BLOCK as int, BLOCK + d) =~= s.subrange(BLOCK as int, BLOCK + d));
        assert(t.skip(BLOCK + d) =~= fixed_stream(rest));
    }
}

/// The number that octal digits write, each of them a byte.
pub open spec fn octal_value(digits: Seq<u8>) -> int
    decreases digits.len(),
{
    if digits.len() == 0 {
        0
    } else {
        8 * octal_value(digits.drop_last()) + (digits.last() - 48)
    }
}

/// Bytes below 128 are the text of as many characters.
proof fn lemma_ascii(raw: Seq<u8>)
    requires
        forall|i: int| 0 <= i < raw.len() ==> #[trigger] raw[i] < 0x80,
    ensures
        ({
            let t = Seq::new(raw.len(), |i: int| raw[i] as char);
            vstd::utf8::valid_utf8(raw) && vstd::utf8::decode_utf8(raw) == t
        }),
{
    let t = Seq::new(raw.len(), |i: int| raw[i] as char);
    assert(vstd::utf8::is_ascii_chars(t)) by {
        assert forall|i: int| 0 <= i < t.len() implies '\0' <= #[trigger] t[i] <= '\u{7f}' by {
            assert(raw[i] < 0x80);
        }
    }
    vstd::utf8::is_ascii_chars_encode_utf8(t);
    assert(vstd::utf8::encode_utf8(t) =~= raw) by {
        assert forall|i: int| 0 <= i < raw.len() implies vstd::utf8::encode_utf8(t)[i]
            == raw[i] by {
            assert(t[i] as u8 == vstd::utf8::encode_utf8(t)[i]);
        }
    }
    vstd::utf8::encode_utf8_decode_utf8(t);
    vstd::utf8::encode_utf8_valid_utf8(t);
}

proof fn lemma_octal_value(digits: Seq<u8>)
    requires
        forall|i: int| 0 <= i < digits.len() ==> 48 <= #[trigger] digits[i] <= 55,
    ensures
        strings::number(Seq::new(digits.len(), |i: int| digits[i] as char), 8) == octal_value(
            digits,
        ),
    decreases digits.len(),
{
    let t = Seq::new(digits.len(), |i: int| digits[i] as char);
    if digits.len() > 0 {
        let p = digits.drop_last();
        assert forall|i: int| 0 <= i < p.len() implies 48 <= #[trigger] p[i] <= 55 by {
            assert(p[i] == digits[i]);
        }
        lemma_octal_value(p);
        assert(t.drop_last() =~= Seq::new(p.len(), |i: int| p[i] as char));
        assert(48 <= digits[digits.len() - 1] <= 55);
    }
}

/// A size field of octal digits, which end with the field or with a NUL or a space,
/// reads as the number that the digits write.
pub proof fn law_size_field_is_octal(digits: Seq<u8>, rest: Seq<u8>)
    requires
        0 < digits.len(),
        digits.len() + rest.len() == 12,
        forall|i: int| 0 <= i < digits.len() ==> 48 <= #[trigger] digits[i] <= 55,
        rest.len() > 0 ==> rest[0] == 0 || rest[0] == 32,
    ensures
        octal_size(digits + rest) matches Some(n) && n == octal_value(digits),
{
    let field = digits + rest;
    let end = digits.len() as int;
    assert forall|j: int| 0 <= j < end implies field[j] != 0 && field[j] != 32 by {
        assert(field[j] == digits[j]);
    }
    lemma_digits_end(field, end);
    let raw = field.take(end);
    assert(raw =~= digits);
    assert(48 <= digits[0] <= 55);
    lemma_ascii(raw);
    let t = Seq::new(raw.len(), |i: int| raw[i] as char);
    assert forall|i: int| 0 <= i < t.len() implies strings::is_digit(#[trigger] t[i], 8) by {
        assert(48 <= digits[i] <= 55);
    }
    assert(strings::is_digit(t[0], 8) && strings::is_digit(t[t.len() - 1], 8));
    strings::lemma_trim_trimmed(t);
    assert(strings::without_plus(t) == t);
    lemma_octal_value(digits);
    lemma_number_bound(t);
    strings::lemma_number_grows(t, 8, t.len() as int);
    assert(t.take(t.len() as int) =~= t);
    lemma_eights_grow(t.len(), 12);
    assert(eights(12) == 0x10_0000_0000) by {
        reveal_with_fuel(eights, 13);
    }
}

/// A blank size field is 0. One whose top bit is set is no octal number, nor is one
/// with a byte above the digit seven before its end.
pub proof fn law_size_field_that_is_none(field: Seq<u8>, i: int)
    requires
        field.len() == 12,
    ensures
        field[0] == 0 || field[0] == 32 ==> octal_size(field) == Some(0u64),
        field[0] >= 0x80 ==> octal_size(field) is None,
        0 <= i < 12 && 56 <= field[i] < 0x80 && (forall|j: int|
            0 <= j <= i ==> 0 < #[trigger] field[j] < 0x80 && field[j] != 32) && (forall|j: int|
            i < j < 12 ==> #[trigger] field[j] < 0x80) ==> octal_size(field) is None,
{
    if field[0] == 0 || field[0] == 32 {
        lemma_digits_end(field, 0);
        let raw = field.take(0);
        lemma_ascii(raw);
        let t = Seq::new(raw.len(), |j: int| raw[j] as char);
        strings::lemma_trim_trimmed(t);
    }
    if 0 <= i < 12 && 56 <= field[i] < 0x80 && (forall|j: int|
        0 <= j <= i ==> 0 < #[trigger] field[j] < 0x80 && field[j] != 32) && (forall|j: int|
        i < j < 12 ==> #[trigger] field[j] < 0x80) {
        lemma_digits_end_bounds(field);
        lemma_digits_end_passes(field, i);
        let end = digits_end(field);
        let raw = field.take(end);
        assert forall|j: int| 0 <= j < raw.len() implies #[trigger] raw[j] < 0x80 by {
            assert(field[j] < 0x80);
        }
        lemma_ascii(raw);
        let t = Seq::new(raw.len(), |j: int| raw[j] as char);
        let (a, b) = strings::law_trimmed_text_is_in_the_text(t);
        let m = strings::trim(t);
        assert(t[i] == field[i] as char);
        assert(!strings::is_white(t[i]));
        assert(i >= a.len()) by {
            if i < a.len() {
                assert(strings::is_white(a[i]));
                assert(t[i] == a[i]);
            }
        }
        let at = i - a.len();
        assert(at < m.len()) by {
            if at >= m.len() {
                assert(strings::is_white(b[at - m.len()]));
                assert(t[i] == b[at - m.len()]);
            }
        }
        assert(m[at] == t[i]);
        let d = strings::without_plus(m);
        if strings::parse_unsigned(m, 8) is Some {
            if m[0] == '+' {
                assert(at > 0);
                assert(d[at - 1] == m[at]);
                assert(strings::is_digit(d[at - 1], 8));
            } else {
                assert(strings::is_digit(d[at], 8));
            }
        }
    }
}

/// The digits of a size field go on as long as no NUL or space ends them.
proof fn lemma_digits_end_passes(field: Seq<u8>, i: int)
    requires
        0 <= i < field.len(),
        forall|j: int| 0 <= j <= i ==> 0 < #[trigger] field[j] && field[j] != 32,
    ensures
        digits_end(field) > i,
    decreases field.len(),
{
    assert(field[0] > 0);
    if i > 0 {
        let rest = field.skip(1);
        assert forall|j: int| 0 <= j <= i - 1 implies 0 < #[trigger] rest[j] && rest[j] != 32 by {
            assert(rest[j] == field[j + 1]);
        }
        lemma_digits_end_passes(rest, i - 1);
    } else {
        lemma_digits_end_bounds(field.skip(1));
    }
}

/// A header that is neither blank nor a link's is followed by as many whole blocks as
/// its size needs, and not one more: the next header stands right after them.
pub proof fn law_data_is_the_least_number_of_blocks(h: Seq<u8>, size: Seq<u8>, at: int)
    requires
        h.len() == 512,
        0 <= at < 512,
        h[at] != 0,
        h[156] != 49,
        h[156] != 50,
        size == h.subrange(124, 136),
    ensures
        octal_size(size) matches Some(n) ==> {
            let d = data_len(h);
            d % 512 == 0 && n <= d < n + 512
        },
        octal_size(size) is None ==> data_len(h) == 0,
{
    assert(!is_blank(h)) by {
        if is_blank(h) {
            assert(h[at] == 0);
        }
    }
    lemma_data_len(h);
}

/// The header of a link with a size goes out with eleven zeros and a NUL in its size
/// field, and no data follows it. Every other header goes out as it came in.
pub proof fn law_only_links_are_fixed(h: Seq<u8>)
    requires
        h.len() == 512,
    ensures
        ({
            let size = octal_size(h.subrange(124, 136));
            let link = h[156] == 49 || h[156] == 50;
            if link && size is Some && size != Some(0u64) {
                let f = fixed_header(h);
                &&& f.len() == 512
                &&& forall|i: int| 124 <= i < 135 ==> f[i] == 48
                &&& f[135] == 0
                &&& forall|i: int|
                    0 <= i < 512 && !(124 <= i < 136) && !(148 <= i < 156) ==> f[i] == h[i]
                &&& f[154] == 0 && f[155] == 32
                &&& data_len(h) == 0
            } else {
                fixed_header(h) == h
            }
        }),
{
    let size = octal_size(h.subrange(124, 136));
    if (h[156] == 49 || h[156] == 50) && size is Some && size != Some(0u64) {
        assert(!is_blank(h)) by {
            if is_blank(h) {
                assert(h[156] == 0);
            }
        }
        assert(is_bogus(h));
        let z = overwritten(h, SIZE_OFFSET as int, zero_size());
        let c = checksum_field(checksum(z));
        assert(c.len() == 8 && c[6] == 0 && c[7] == 32);
        let f = fixed_header(h);
        assert(f.len() == 512);
        assert forall|i: int| 124 <= i < 135 implies f[i] == 48 by {
            assert(z[i] == zero_size()[i - 124]);
        }
        assert(z[135] == zero_size()[11]);
    }
}

/// The sum of some bytes.
pub open spec fn total(s: Seq<u8>) -> int
    decreases s.len(),
{
    if s.len() == 0 {
        0
    } else {
        s[0] + total(s.skip(1))
    }
}

proof fn lemma_total_push(s: Seq<u8>)
    requires
        s.len() > 0,
    ensures
        total(s) == total(s.drop_last()) + s.last(),
    decreases s.len(),
{
    if s.len() > 1 {
        lemma_total_push(s.skip(1));
        assert(s.skip(1).drop_last() =~= s.drop_last().skip(1));
    } else {
        assert(s.drop_last() =~= seq![]);
        assert(s.skip(1) =~= seq![]);
    }
}

proof fn lemma_byte_sum(h: Seq<u8>, n: int)
    requires
        h.len() == 512,
        0 <= n <= 512,
    ensures
        byte_sum(h, n) == if n <= 148 {
            total(h.take(n))
        } else if n <= 156 {
            total(h.take(148)) + 32 * (n - 148)
        } else {
            total(h.take(148)) + 256 + total(h.subrange(156, n))
        },
    decreases n,
{
    if n > 0 {
        lemma_byte_sum(h, n - 1);
        if n <= 148 {
            lemma_total_push(h.take(n));
            assert(h.take(n).drop_last() =~= h.take(n - 1));
        } else if n > 156 {
            let s = h.subrange(156, n);
            lemma_total_push(s);
            assert(s.drop_last() =~= h.subrange(156, n - 1));
            if n == 157 {
                assert(h.subrange(156, 156) =~= seq![]);
            }
        }
    } else {
        assert(h.take(0) =~= seq![]);
    }
}

/// The checksum that a fixed header carries in octal is the sum of its bytes, the eight
/// of the checksum field itself counted as spaces.
pub proof fn law_checksum_is_the_sum_of_the_bytes(h: Seq<u8>)
    requires
        h.len() == 512,
        is_bogus(h),
    ensures
        ({
            let f = fixed_header(h);
            octal_value(f.subrange(148, 154)) == total(f.take(148)) + 256 + total(f.skip(156))
        }),
{
    let f = fixed_header(h);
    law_fixed_header(h);
    lemma_byte_sum(f, 512);
    assert(f.subrange(156, 512) =~= f.skip(156));
    law_checksum_field_writes_checksum(f);
    let field = f.subrange(148, 156);
    let d = f.subrange(148, 154);
    assert(field == checksum_field(checksum(f)));
    assert forall|i: int| 0 <= i < 6 implies d[i] == field[i] by {}
    assert(d.drop_last() =~= f.subrange(148, 153));
    assert(f.subrange(148, 153).drop_last() =~= f.subrange(148, 152));
    assert(f.subrange(148, 152).drop_last() =~= f.subrange(148, 151));
    assert(f.subrange(148, 151).drop_last() =~= f.subrange(148, 150));
    assert(f.subrange(148, 150).drop_last() =~= f.subrange(148, 149));
    assert(f.subrange(148, 149).drop_last() =~= f.subrange(148, 148));
    reveal_with_fuel(octal_value, 7);
}

/// After a file comes the next header. Where the header of a file, its data in whole
/// blocks and another header stand one after another, the data goes out as it came in,
/// and what follows it is read from its own header on, whatever the size of the file.
pub proof fn law_next_header_is_seen(file: Seq<u8>, data: Seq<u8>, rest: Seq<u8>, n: u64)
    requires
        file.len() == 512,
        file[156] != 49,
        file[156] != 50,
        exists|i: int| 0 <= i < 512 && #[trigger] file[i] != 0,
        octal_size(file.subrange(124, 136)) == Some(n),
        data.len() % 512 == 0,
        n <= data.len() < n + 512,
    ensures
        fixed_stream(file + data + rest) == file + data + fixed_stream(rest),
{
    let s = file + data + rest;
    let at = choose|i: int| 0 <= i < 512 && #[trigger] file[i] != 0;
    law_data_is_the_least_number_of_blocks(file, file.subrange(124, 136), at);
    assert(s.take(512) =~= file);
    law_only_links_are_fixed(file);
    lemma_data_len(file);
    let d = data_len(file);
    assert(d == data.len());
    assert(s.subrange(512, 512 + d) =~= data);
    assert(s.skip(512 + d) =~= rest);
}

/// After the header of a link with a size comes the next header at once.
pub proof fn law_link_has_no_data(link: Seq<u8>, rest: Seq<u8>)
    requires
        link.len() == 512,
        link[156] == 49 || link[156] == 50,
        octal_size(link.subrange(124, 136)) is Some,
        octal_size(link.subrange(124, 136)) != Some(0u64),
    ensures
        fixed_stream(link + rest) == fixed_header(link) + fixed_stream(rest),
{
    let s = link + rest;
    law_only_links_are_fixed(link);
    assert(s.take(512) =~= link);
    lemma_data_len(link);
    assert(s.subrange(512, 512) =~= seq![]);
    assert(s.skip(512) =~= rest);
    assert(fixed_stream(s) =~= fixed_header(link) + fixed_stream(rest));
}

/// A reader that has room is served: it gets bytes as long as some are to come, never
/// more than it has room for, and what it gets are the next bytes of the fixed stream.
pub proof fn law_reader_is_served(p: Progress, out_len: int, r: ReadStep, q: Progress, rest: Seq<u8>)
    requires
        is_step(p, out_len, r, q),
        out_len > 0,
        p.passing >= 0,
    ensures
        match r {
            ReadStep::Done => pending(p, rest) == Seq::<u8>::empty(),
            ReadStep::Serve(bytes) => {
                &&& 0 < bytes@.len() <= out_len
                &&& pending(p, rest) == bytes@ + pending(q, rest)
            },
            ReadStep::PassThrough(n) => {
                &&& 0 < n <= out_len
                &&& n <= p.passing
                &&& p.held.len() == 0
                &&& q == p
            },
            ReadStep::FillBlock => {
                &&& p.held.len() == 0
                &&& p.passing == 0
                &&& !p.ended
                &&& q == p
            },
        },
{
    match r {
        ReadStep::Serve(bytes) => {
            assert(pending(p, rest) =~= bytes@ + pending(q, rest));
        },
        ReadStep::Done => {
            law_done_is_the_end(p, rest);
        },
        _ => {},
    }
}

/// Bytes that pass through, as many as were asked for or fewer, are a move of the
/// reading.
pub proof fn law_passing_is_a_move(a: Reading, n: int)
    requires
        a.progress.held.len() == 0,
        0 <= n <= a.progress.passing,
        n <= a.rest.len(),
        n == 0 ==> a.rest.len() == 0,
    ensures
        moves(
            a,
            Reading {
                progress: after_passing(a.progress, n),
                rest: a.rest.skip(n),
                out: a.out + a.rest.take(n),
            },
        ),
{
    let b = Reading {
        progress: after_passing(a.progress, n),
        rest: a.rest.skip(n),
        out: a.out + a.rest.take(n),
    };
    assert(passes(a, b, n));
}

/// In whatever pieces a block comes in, it is the same block.
pub proof fn law_pieces_make_a_block(p: Progress, a: Seq<u8>, b: Seq<u8>)
    requires
        a.len() > 0,
        b.len() > 0,
    ensures
        after_absorbing(after_absorbing(p, a), b) == after_absorbing(p, a + b),
{
    assert((p.held + a) + b =~= p.held + (a + b));
}

/// Reading a block is a move of the reading: a whole one goes out fixed, and what is
/// left at the end of the inner stream goes out as it is.
pub proof fn law_block_is_a_move(a: Reading)
    requires
        a.progress.held.len() == 0,
        a.progress.passing == 0,
        !a.progress.ended,
    ensures
        a.rest.len() >= 512 ==> moves(
            a,
            Reading {
                progress: after_block(after_absorbing(a.progress, a.rest.take(512))),
                rest: a.rest.skip(512),
                out: a.out,
            },
        ),
        a.rest.len() < 512 ==> moves(
            a,
            Reading {
                progress: after_block(
                    after_absorbing(
                        Progress { held: a.rest, passing: 0, ended: false },
                        Seq::<u8>::empty(),
                    ),
                ),
                rest: seq![],
                out: a.out,
            },
        ),
{
    if a.rest.len() >= 512 {
        let h = a.rest.take(512);
        assert(a.progress.held + h =~= h);
        let b = Reading {
            progress: after_block(after_absorbing(a.progress, h)),
            rest: a.rest.skip(512),
            out: a.out,
        };
        assert(reads_block(a, b));
    } else {
        assert(a.rest + Seq::<u8>::empty() =~= a.rest);
        let b = Reading {
            progress: after_block(
                after_absorbing(
                    Progress { held: a.rest, passing: 0, ended: false },
                    Seq::<u8>::empty(),
                ),
            ),
            rest: seq![],
            out: a.out,
        };
        assert(reads_block(a, b));
    }
}

/// A block of zeros, a header whose size is no octal number, and one of size 0 go out as
/// they came in, and the next header follows at once, whatever the type of the entry.
pub proof fn law_headers_without_data(h: Seq<u8>, rest: Seq<u8>)
    requires
        h.len() == 512,
        (forall|i: int| 0 <= i < 512 ==> #[trigger] h[i] == 0) || octal_size(
            h.subrange(124, 136),
        ) is None || octal_size(h.subrange(124, 136)) == Some(0u64),
    ensures
        data_len(h) == 0,
        fixed_header(h) == h,
        fixed_stream(h + rest) == h + fixed_stream(rest),
{
    let s = h + rest;
    assert(s.take(512) =~= h);
    lemma_data_len(h);
    if forall|i: int| 0 <= i < 512 ==> #[trigger] h[i] == 0 {
        assert(is_blank(h)) by {
            assert forall|i: int| 0 <= i < h.len() implies h[i] == 0 by {
                assert(h[i] == 0);
            }
        }
    }
    assert(data_len(h) == 0);
    assert(s.subrange(512, 512) =~= seq![]);
    assert(s.skip(512) =~= rest);
    assert(fixed_stream(s) =~= h + fixed_stream(rest));
}

/// A stream that ends before a whole header goes out as it is, and so does one that ends
/// within the data of a file.
pub proof fn law_cut_stream_goes_out_as_it_is(file: Seq<u8>, data: Seq<u8>, n: u64, at: int)
    requires
        file.len() == 512,
        file[156] != 49,
        file[156] != 50,
        0 <= at < 512,
        file[at] != 0,
        octal_size(file.subrange(124, 136)) == Some(n),
        data.len() <= n,
    ensures
        fixed_stream(file + data) == file + data,
        data.len() < 512 ==> fixed_stream(data) == data,
{
    let s = file + data;
    law_data_is_the_least_number_of_blocks(file, file.subrange(124, 136), at);
    law_only_links_are_fixed(file);
    assert(s.take(512) =~= file);
    lemma_data_len(file);
    assert(s.subrange(512, s.len() as int) =~= data);
    assert(s.skip(s.len() as int) =~= seq![]);
    assert(fixed_stream(Seq::<u8>::empty()) =~= seq![]);
    assert(fixed_stream(s) =~= file + data);
}

/// A size field with a sign in it is no octal number: any byte from `!` to `/` but a
/// plus sign, and a plus sign after another sign or a digit.
pub proof fn law_size_field_with_a_sign(field: Seq<u8>, i: int)
    requires
        field.len() == 12,
        0 <= i < 12,
        33 <= field[i] <= 47,
        field[i] == 43 ==> i > 0 && field[i - 1] > 32,
        forall|j: int| 0 <= j <= i ==> 0 < #[trigger] field[j] < 0x80 && field[j] != 32,
        forall|j: int| i < j < 12 ==> #[trigger] field[j] < 0x80,
    ensures
        octal_size(field) is None,
{
    lemma_digits_end_bounds(field);
    lemma_digits_end_passes(field, i);
    let end = digits_end(field);
    let raw = field.take(end);
    assert forall|j: int| 0 <= j < raw.len() implies #[trigger] raw[j] < 0x80 by {
        assert(field[j] < 0x80);
    }
    lemma_ascii(raw);
    let t = Seq::new(raw.len(), |j: int| raw[j] as char);
    let (a, b) = strings::law_trimmed_text_is_in_the_text(t);
    let m = strings::trim(t);
    let k = if field[i] == 43 {
        i - 1
    } else {
        i
    };
    assert(t[i] == field[i] as char);
    assert(t[k] == field[k] as char);
    assert(!strings::is_white(t[i]) && !strings::is_white(t[k])) by {
        assert(field[k] < 0x80);
        if field[i] != 43 {
            assert(k == i);
        } else {
            assert(32 < field[k] < 0x80);
            strings::law_white_space(t[k]);
        }
        strings::law_white_space(t[i]);
    }
    assert(k >= a.len()) by {
        if k < a.len() {
            assert(strings::is_white(a[k]));
            assert(t[k] == a[k]);
        }
    }
    let at = i - a.len();
    assert(at < m.len()) by {
        if at >= m.len() {
            assert(strings::is_white(b[at - m.len()]));
            assert(t[i] == b[at - m.len()]);
        }
    }
    assert(m[at] == t[i]);
    let d = strings::without_plus(m);
    if strings::parse_unsigned(m, 8) is Some {
        if m[0] == '+' {
            assert(at > 0);
            assert(d[at - 1] == m[at]);
            assert(strings::is_digit(d[at - 1], 8));
        } else {
            assert(strings::is_digit(d[at], 8));
        }
    }
}

/// A block is read on until it has its 512 bytes or the inner stream ends, and no byte of
/// the next one is taken: with as many bytes as it lacks it is whole.
pub proof fn law_block_is_read_whole(p: Progress, chunk: Seq<u8>)
    requires
        p.held.len() <= 512,
        !p.ended,
        chunk.len() <= lacking(p),
    ensures
        ({
            let q = after_absorbing(p, chunk);
            &&& q.held.len() <= 512
            &&& chunk.len() == lacking(p) && chunk.len() > 0 ==> q.held.len() == 512
                && is_block_done(q)
            &&& 0 < chunk.len() < lacking(p) ==> !is_block_done(q)
            &&& chunk.len() == 0 ==> is_block_done(q) && q.held == p.held
            &&& q.held.len() == p.held.len() + chunk.len()
        }),
        is_block_done(p) <==> p.held.len() == 512,
{
    assert(p.held + Seq::<u8>::empty() =~= p.held);
}

} // verus!
