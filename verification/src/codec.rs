//! Length-prefixed framing over a byte stream.
//!
//! Every frame on the wire is `Content-Length: <decimal>\r\n\r\n` followed by
//! exactly that many payload bytes, with no trailing delimiter.  The decoder
//! accumulates arbitrary byte chunks and extracts every complete frame from
//! the head of the buffer.  It advances by the byte length of the header it
//! parsed, never by the position of a separator found later in the buffer, so
//! a payload that itself contains `\r\n` can never confuse it.

use vstd::prelude::*;

verus! {

/// A byte is a decimal digit.
pub open spec fn is_digit_byte(b: u8) -> bool {
    48 <= b <= 57
}

/// All bytes of the sequence are decimal digits.
pub open spec fn all_digit_bytes(s: Seq<u8>) -> bool {
    forall|i: int| 0 <= i < s.len() ==> is_digit_byte(#[trigger] s[i])
}

/// Numeric value of a sequence of decimal digit bytes.
pub open spec fn bytes_value(s: Seq<u8>) -> nat
    decreases s.len(),
{
    if s.len() == 0 {
        0
    } else {
        (bytes_value(s.drop_last()) * 10 + (s.last() - 48)) as nat
    }
}

/// The decimal digits of `n`, most significant first.
pub open spec fn dec_digits(n: nat) -> Seq<u8>
    decreases n,
{
    if n < 10 {
        seq![(n + 48) as u8]
    } else {
        dec_digits(n / 10).push((n % 10 + 48) as u8)
    }
}

/// The bytes of the header prefix `Content-Length: `.
pub open spec fn cl_prefix() -> Seq<u8> {
    seq![67u8, 111u8, 110u8, 116u8, 101u8, 110u8, 116u8, 45u8, 76u8, 101u8, 110u8, 103u8, 116u8, 104u8, 58u8, 32u8]
}

/// Position of the first `\r\n` at or after `from`, if any.
pub open spec fn first_crlf_from(s: Seq<u8>, from: int) -> Option<int>
    decreases s.len() - from when 0 <= from

{
    if from + 2 > s.len() {
        None
    } else if s[from] == 13 && s[from + 1] == 10 {
        Some(from)
    } else {
        first_crlf_from(s, from + 1)
    }
}

/// The content length announced by a header line, when the line is exactly
/// the prefix followed by at least one digit and the value fits in `usize`.
pub open spec fn header_value(h: Seq<u8>) -> Option<int> {
    if h.len() > 16 && h.subrange(0, 16) == cl_prefix() && all_digit_bytes(h.skip(16))
        && bytes_value(h.skip(16)) <= usize::MAX {
        Some(bytes_value(h.skip(16)) as int)
    } else {
        None
    }
}

/// A result of `first_crlf_from` lies in range.
proof fn lemma_first_crlf_range(s: Seq<u8>, from: int)
    requires
        0 <= from,
    ensures
        first_crlf_from(s, from) matches Some(j) ==> from <= j && j + 2 <= s.len() && s[j] == 13
            && s[j + 1] == 10,
    decreases s.len() - from,
{
    if from + 2 <= s.len() && !(s[from] == 13 && s[from + 1] == 10) {
        lemma_first_crlf_range(s, from + 1);
    }
}

#[via_fn]
proof fn drain_frames_decreases(s: Seq<u8>) {
    lemma_first_crlf_range(s, 0);
}

/// The frames that can be extracted from the head of the buffer, paired with
/// the bytes that remain.
///
/// A header line that is not a well-formed `Content-Length` line is dropped
/// (through its `\r\n`), and so is a header line that is not followed by the
/// empty line; a frame whose payload has not fully arrived is left in place.
pub open spec fn drain_frames(s: Seq<u8>) -> (Seq<Seq<u8>>, Seq<u8>)
    decreases s.len() via drain_frames_decreases
{
    match first_crlf_from(s, 0) {
        None => (Seq::empty(), s),
        Some(i) => match header_value(s.subrange(0, i)) {
            None => drain_frames(s.skip(i + 2)),
            Some(n) => if s.len() < i + 4 {
                (Seq::empty(), s)
            } else if !(s[i + 2] == 13 && s[i + 3] == 10) {
                drain_frames(s.skip(i + 2))
            } else if s.len() < i + 4 + n {
                (Seq::empty(), s)
            } else {
                let f = s.subrange(i + 4, i + 4 + n);
                let r = drain_frames(s.skip(i + 4 + n));
                (seq![f] + r.0, r.1)
            },
        },
    }
}

/// The numeric value of a digit string never decreases as the string grows.
proof fn lemma_bytes_value_monotone(s: Seq<u8>, i: int, j: int)
    requires
        0 <= i <= j <= s.len(),
        all_digit_bytes(s),
    ensures
        bytes_value(s.subrange(0, i)) <= bytes_value(s.subrange(0, j)),
    decreases j - i,
{
    if i < j {
        lemma_bytes_value_monotone(s, i, j - 1);
        let a = s.subrange(0, j - 1);
        let b = s.subrange(0, j);
        assert(b.drop_last() =~= a);
        assert(bytes_value(a) <= bytes_value(a) * 10) by (nonlinear_arith);
    }
}

/// The decimal rendering of `n` is made of digits and reads back as `n`.
proof fn lemma_dec_digits(n: nat)
    ensures
        dec_digits(n).len() >= 1,
        all_digit_bytes(dec_digits(n)),
        bytes_value(dec_digits(n)) == n,
    decreases n,
{
    if n < 10 {
        let d = dec_digits(n);
        assert(d.len() == 1);
        assert(d.drop_last() =~= Seq::<u8>::empty());
        assert(bytes_value(d.drop_last()) == 0);
        assert(bytes_value(d) == n);
    } else {
        lemma_dec_digits(n / 10);
        let d = dec_digits(n);
        assert(d.drop_last() =~= dec_digits(n / 10));
        assert(d.last() == (n % 10 + 48) as u8);
        assert(bytes_value(d) == (bytes_value(d.drop_last()) * 10 + (d.last() - 48)) as nat);
        vstd::arithmetic::div_mod::lemma_fundamental_div_mod(n as int, 10);
        assert(bytes_value(d) == n);
        assert forall|i: int| 0 <= i < d.len() implies is_digit_byte(#[trigger] d[i]) by {
            if i < d.len() - 1 {
                assert(d[i] == dec_digits(n / 10)[i]);
            }
        }
    }
}

/// Byte into the buffer at `idx`, as an executable read.
fn byte_at(buf: &Vec<u8>, idx: usize) -> (r: u8)
    requires
        idx < buf@.len(),
    ensures
        r == buf@[idx as int],
{
    buf[idx]
}

/// Copy `buf[from..to]` into a fresh vector.
fn copy_range(buf: &Vec<u8>, from: usize, to: usize) -> (r: Vec<u8>)
    requires
        from <= to <= buf@.len(),
    ensures
        r@ == buf@.subrange(from as int, to as int),
{
    let mut r: Vec<u8> = Vec::new();
    let mut j: usize = from;
    while j < to
        invariant
            from <= j <= to <= buf@.len(),
            r@ == buf@.subrange(from as int, j as int),
        decreases to - j,
    {
        r.push(buf[j]);
        proof {
            assert(r@ =~= buf@.subrange(from as int, j + 1 as int));
        }
        j = j + 1;
    }
    r
}

/// Position of the first `\r\n` in the buffer.
fn find_crlf(buf: &Vec<u8>) -> (r: Option<usize>)
    ensures
        r is None ==> first_crlf_from(buf@, 0) is None,
        r matches Some(i) ==> first_crlf_from(buf@, 0) == Some(i as int),
{
    let n = buf.len();
    if n < 2 {
        return None;
    }
    let mut i: usize = 0;
    while i <= n - 2
        invariant
            n == buf@.len(),
            2 <= n,
            0 <= i <= n - 1,
            first_crlf_from(buf@, 0) == first_crlf_from(buf@, i as int),
        decreases n - i,
    {
        if buf[i] == 13 && buf[i + 1] == 10 {
            return Some(i);
        }
        i = i + 1;
    }
    None
}

/// The byte of `cl_prefix` at position `j`.
fn cl_prefix_byte(j: usize) -> (r: u8)
    requires
        j < 16,
    ensures
        r == cl_prefix()[j as int],
{
    if j == 0 {
        67
    } else if j == 1 {
        111
    } else if j == 2 {
        110
    } else if j == 3 {
        116
    } else if j == 4 {
        101
    } else if j == 5 {
        110
    } else if j == 6 {
        116
    } else if j == 7 {
        45
    } else if j == 8 {
        76
    } else if j == 9 {
        101
    } else if j == 10 {
        110
    } else if j == 11 {
        103
    } else if j == 12 {
        116
    } else if j == 13 {
        104
    } else if j == 14 {
        58
    } else {
        32
    }
}

/// Parse one header line.
///
/// Returns the announced content length exactly when the line is
/// `Content-Length: ` followed by one or more decimal digits whose value
/// fits in `usize`; any other line yields `None`.
pub fn get_content_len(line: &Vec<u8>) -> (r: Option<usize>)
    ensures
        r is Some <==> header_value(line@) is Some,
        r matches Some(n) ==> header_value(line@) == Some(n as int),
{
    let len = line.len();
    if len < 17 {
        return None;
    }
    let mut j: usize = 0;
    while j < 16
        invariant
            len == line@.len(),
            len >= 17,
            0 <= j <= 16,
            forall|k: int| 0 <= k < j ==> line@[k] == cl_prefix()[k],
        decreases 16 - j,
    {
        if line[j] != cl_prefix_byte(j) {
            proof {
                assert(line@.subrange(0, 16) != cl_prefix());
            }
            return None;
        }
        j = j + 1;
    }
    proof {
        assert(line@.subrange(0, 16) =~= cl_prefix());
    }
    let mut acc: usize = 0;
    let mut i: usize = 16;
    while i < len
        invariant
            len == line@.len(),
            len >= 17,
            line@.subrange(0, 16) == cl_prefix(),
            16 <= i <= len,
            all_digit_bytes(line@.subrange(16, i as int)),
            acc == bytes_value(line@.subrange(16, i as int)),
        decreases len - i,
    {
        let b = line[i];
        if b < 48 || b > 57 {
            proof {
                assert(line@.skip(16)[i - 16] == line@[i as int]);
                assert(!all_digit_bytes(line@.skip(16)));
            }
            return None;
        }
        let d = (b - 48) as usize;
        if acc > (usize::MAX - d) / 10 {
            proof {
                let p = line@.subrange(16, i as int);
                let q = line@.subrange(16, i + 1 as int);
                assert(q.drop_last() =~= p);
                assert(acc * 10 + d > usize::MAX) by (nonlinear_arith)
                    requires
                        acc > (usize::MAX - d) / 10,
                        d <= 9,
                ;
                if all_digit_bytes(line@.skip(16)) {
                    lemma_bytes_value_monotone(line@.skip(16), i - 16 + 1, len - 16);
                    assert(line@.skip(16).subrange(0, i - 16 + 1) =~= q);
                    assert(line@.skip(16).subrange(0, len - 16) =~= line@.skip(16));
                    assert(bytes_value(line@.skip(16)) > usize::MAX);
                }
            }
            return None;
        }
        proof {
            let p = line@.subrange(16, i as int);
            let q = line@.subrange(16, i + 1 as int);
            assert(q.drop_last() =~= p);
            assert(acc * 10 + d <= usize::MAX) by (nonlinear_arith)
                requires
                    acc <= (usize::MAX - d) / 10,
                    d <= 9,
            ;
        }
        acc = acc * 10 + d;
        i = i + 1;
    }
    proof {
        assert(line@.subrange(16, len as int) =~= line@.skip(16));
    }
    Some(acc)
}

/// Accumulates raw bytes from the socket and yields complete frames.
pub struct Packet {
    /// Announced length of a frame being assembled; `0` until known.
    length: usize,
    /// How many bytes of that frame have been read so far.
    read_length: usize,
    /// Bytes received and not yet consumed by a complete frame.
    buf: Vec<u8>,
}

impl View for Packet {
    type V = Seq<u8>;

    closed spec fn view(&self) -> Seq<u8> {
        self.buf@
    }
}

impl Packet {
    /// Announced length of the frame being assembled.
    pub closed spec fn spec_length(&self) -> usize {
        self.length
    }

    /// How many bytes of that frame have been read so far.
    pub closed spec fn spec_read_length(&self) -> usize {
        self.read_length
    }

    /// An empty decoder.
    pub fn new() -> (r: Packet)
        ensures
            r@ == Seq::<u8>::empty(),
            r.spec_length() == 0,
            r.spec_read_length() == 0,
    {
        Packet { length: 0, read_length: 0, buf: Vec::new() }
    }

    /// Feed a chunk of raw bytes in; they are appended to the buffer.
    pub fn feed(&mut self, mut data: Vec<u8>)
        ensures
            final(self)@ == old(self)@ + data@,
            final(self).spec_length() == old(self).spec_length(),
            final(self).spec_read_length() == old(self).spec_read_length(),
    {
        self.buf.append(&mut data);
    }

    /// `true` when a whole announced frame has been read.
    pub fn is_done(&self) -> (r: bool)
        ensures
            r == (self.spec_length() != 0 && self.spec_length() == self.spec_read_length()),
    {
        self.length != 0 && self.length == self.read_length
    }

    /// The bytes currently buffered.
    pub fn buffered(&self) -> (r: &Vec<u8>)
        ensures
            r@ == self@,
    {
        &self.buf
    }

    /// Extract every complete frame from the head of the buffer.
    ///
    /// The payloads come back in arrival order; whatever follows the last
    /// complete frame stays buffered for the next feed.
    pub fn extract(&mut self) -> (frames: Vec<Vec<u8>>)
        ensures
            frames.deep_view() == drain_frames(old(self)@).0,
            final(self)@ == drain_frames(old(self)@).1,
            final(self).spec_length() == old(self).spec_length(),
            final(self).spec_read_length() == old(self).spec_read_length(),
    {
        let mut frames: Vec<Vec<u8>> = Vec::new();
        loop
            invariant_except_break
                drain_frames(old(self).buf@).0 == frames.deep_view() + drain_frames(self.buf@).0,
                drain_frames(old(self).buf@).1 == drain_frames(self.buf@).1,
                self.length == old(self).length,
                self.read_length == old(self).read_length,
            ensures
                frames.deep_view() == drain_frames(old(self).buf@).0,
                self.buf@ == drain_frames(old(self).buf@).1,
                self.length == old(self).length,
                self.read_length == old(self).read_length,
            decreases self.buf@.len(),
        {
            let ghost pre = self.buf@;
            let i = match find_crlf(&self.buf) {
                Option::None => {
                    proof {
                        assert(drain_frames(pre) == (Seq::<Seq<u8>>::empty(), pre));
                        assert(frames.deep_view() + Seq::<Seq<u8>>::empty() =~= frames.deep_view());
                    }
                    break;
                },
                Option::Some(i) => i,
            };
            proof {
                lemma_first_crlf_range(pre, 0);
            }
            let buf_len = self.buf.len();
            let header = copy_range(&self.buf, 0, i);
            match get_content_len(&header) {
                Option::None => {
                    self.buf = copy_range(&self.buf, i + 2, buf_len);
                    proof {
                        assert(drain_frames(pre) == drain_frames(pre.skip(i + 2)));
                    }
                },
                Option::Some(n) => {
                    if buf_len - i < 4 {
                        proof {
                            assert(drain_frames(pre) == (Seq::<Seq<u8>>::empty(), pre));
                            assert(frames.deep_view() + Seq::<Seq<u8>>::empty() =~= frames.deep_view());
                        }
                        break;
                    }
                    if !(byte_at(&self.buf, i + 2) == 13 && byte_at(&self.buf, i + 3) == 10) {
                        self.buf = copy_range(&self.buf, i + 2, buf_len);
                        proof {
                            assert(drain_frames(pre) == drain_frames(pre.skip(i + 2)));
                        }
                    } else if n > buf_len - (i + 4) {
                        proof {
                            assert(pre.len() < i + 4 + n);
                            assert(drain_frames(pre) == (Seq::<Seq<u8>>::empty(), pre));
                            assert(frames.deep_view() + Seq::<Seq<u8>>::empty() =~= frames.deep_view());
                        }
                        break;
                    } else {
                        let frame = copy_range(&self.buf, i + 4, i + 4 + n);
                        self.buf = copy_range(&self.buf, i + 4 + n, buf_len);
                        let ghost old_frames = frames.deep_view();
                        let ghost old_vec = frames@;
                        frames.push(frame);
                        proof {
                            assert forall|k: int| 0 <= k < frames.deep_view().len() implies #[trigger] frames.deep_view()[k]
                                == old_frames.push(frame@)[k] by {
                                assert(frames.deep_view()[k] == frames@[k].deep_view());
                                if k < old_frames.len() {
                                    assert(frames@[k] == old_vec[k]);
                                } else {
                                    assert(frames@[k] == frame);
                                    assert(frame.deep_view() =~= frame@);
                                }
                            }
                            assert(frames.deep_view() =~= old_frames.push(frame@));
                            assert(drain_frames(pre).0 == seq![frame@] + drain_frames(pre.skip(i + 4 + n)).0);
                            assert(old_frames.push(frame@) + drain_frames(self.buf@).0 =~= old_frames + (seq![frame@] + drain_frames(self.buf@).0));
                        }
                    }
                },
            }
        }
        frames
    }
}

/// Encode one frame: the header announcing the payload's byte length, the
/// empty line, then the payload bytes.
pub fn encode_frame(payload: &str) -> (r: Vec<u8>)
    requires
        vstd::utf8::encode_utf8(payload@).len() <= usize::MAX,
    ensures
        r@ == cl_prefix() + dec_digits(vstd::utf8::encode_utf8(payload@).len()) + seq![13u8, 10u8, 13u8, 10u8] + vstd::utf8::encode_utf8(payload@),
{
    let mut r: Vec<u8> = Vec::new();
    let mut j: usize = 0;
    while j < 16
        invariant
            0 <= j <= 16,
            r@ == cl_prefix().subrange(0, j as int),
        decreases 16 - j,
    {
        r.push(cl_prefix_byte(j));
        proof {
            assert(r@ =~= cl_prefix().subrange(0, j + 1 as int));
        }
        j = j + 1;
    }
    proof {
        assert(cl_prefix().subrange(0, 16) =~= cl_prefix());
    }
    let n = payload.len();
    push_decimal(&mut r, n);
    r.push(13);
    r.push(10);
    r.push(13);
    r.push(10);
    let mut tail = payload.as_bytes_vec();
    r.append(&mut tail);
    proof {
        assert(r@ =~= cl_prefix() + dec_digits(vstd::utf8::encode_utf8(payload@).len()) + seq![13u8, 10u8, 13u8, 10u8] + vstd::utf8::encode_utf8(payload@));
    }
    r
}

/// Append the decimal digits of `n` to the vector.
fn push_decimal(v: &mut Vec<u8>, n: usize)
    ensures
        final(v)@ == old(v)@ + dec_digits(n as nat),
    decreases n,
{
    if n < 10 {
        v.push((n as u8) + 48);
        proof {
            assert(v@ =~= old(v)@ + dec_digits(n as nat));
        }
    } else {
        push_decimal(v, n / 10);
        v.push((n % 10) as u8 + 48);
        proof {
            assert(v@ =~= old(v)@ + dec_digits(n as nat));
        }
    }
}


/// Extending the buffer does not move an already-found separator.
proof fn lemma_first_crlf_extend(s: Seq<u8>, t: Seq<u8>, from: int)
    requires
        0 <= from,
        first_crlf_from(s, from) is Some,
    ensures
        first_crlf_from(s + t, from) == first_crlf_from(s, from),
    decreases s.len() - from,
{
    lemma_first_crlf_range(s, from);
    if from + 2 <= s.len() {
        if s[from] == 13 && s[from + 1] == 10 {
            assert((s + t)[from] == 13 && (s + t)[from + 1] == 10);
        } else {
            assert((s + t)[from] == s[from] && (s + t)[from + 1] == s[from + 1]);
            lemma_first_crlf_extend(s, t, from + 1);
        }
    }
}

/// If no carriage return occurs before `k` and a separator sits at `k`, the
/// first separator from `from` is the one at `k`.
proof fn lemma_first_crlf_scan(s: Seq<u8>, from: int, k: int)
    requires
        0 <= from <= k,
        k + 2 <= s.len(),
        forall|j: int| from <= j < k ==> #[trigger] s[j] != 13,
        s[k] == 13,
        s[k + 1] == 10,
    ensures
        first_crlf_from(s, from) == Some(k),
    decreases k - from,
{
    if from < k {
        lemma_first_crlf_scan(s, from + 1, k);
    }
}

/// Feeding the stream in two pieces extracts the same frames as feeding it
/// whole: the frames of `a + b` are the frames of `a` followed by the frames
/// of what `a` left behind extended by `b`.  A frame split across arbitrary
/// byte boundaries is therefore reassembled exactly as under one-shot
/// delivery.
pub proof fn lemma_split_feed(a: Seq<u8>, b: Seq<u8>)
    ensures
        drain_frames(a + b).0 == drain_frames(a).0 + drain_frames(drain_frames(a).1 + b).0,
        drain_frames(a + b).1 == drain_frames(drain_frames(a).1 + b).1,
    decreases a.len(),
{
    match first_crlf_from(a, 0) {
        Option::None => {
            assert(drain_frames(a) == (Seq::<Seq<u8>>::empty(), a));
            assert(Seq::<Seq<u8>>::empty() + drain_frames(a + b).0 =~= drain_frames(a + b).0);
        },
        Option::Some(i) => {
            lemma_first_crlf_range(a, 0);
            lemma_first_crlf_extend(a, b, 0);
            assert((a + b).subrange(0, i) =~= a.subrange(0, i));
            let h = a.subrange(0, i);
            match header_value(h) {
                Option::None => {
                    assert((a + b).skip(i + 2) =~= a.skip(i + 2) + b);
                    lemma_split_feed(a.skip(i + 2), b);
                },
                Option::Some(n) => {
                    if a.len() < i + 4 {
                        assert(drain_frames(a) == (Seq::<Seq<u8>>::empty(), a));
                        assert(Seq::<Seq<u8>>::empty() + drain_frames(a + b).0 =~= drain_frames(a + b).0);
                    } else if !(a[i + 2] == 13 && a[i + 3] == 10) {
                        assert((a + b)[i + 2] == a[i + 2] && (a + b)[i + 3] == a[i + 3]);
                        assert((a + b).skip(i + 2) =~= a.skip(i + 2) + b);
                        lemma_split_feed(a.skip(i + 2), b);
                    } else if a.len() < i + 4 + n {
                        assert(drain_frames(a) == (Seq::<Seq<u8>>::empty(), a));
                        assert(Seq::<Seq<u8>>::empty() + drain_frames(a + b).0 =~= drain_frames(a + b).0);
                    } else {
                        assert((a + b)[i + 2] == a[i + 2] && (a + b)[i + 3] == a[i + 3]);
                        assert((a + b).subrange(i + 4, i + 4 + n) =~= a.subrange(i + 4, i + 4 + n));
                        assert((a + b).skip(i + 4 + n) =~= a.skip(i + 4 + n) + b);
                        let f = a.subrange(i + 4, i + 4 + n);
                        lemma_split_feed(a.skip(i + 4 + n), b);
                        let tail = a.skip(i + 4 + n);
                        assert(drain_frames(a + b).0 == seq![f] + drain_frames(tail + b).0);
                        assert(drain_frames(a).0 == seq![f] + drain_frames(tail).0);
                        assert(drain_frames(a).1 == drain_frames(tail).1);
                        assert(seq![f] + (drain_frames(tail).0 + drain_frames(drain_frames(tail).1 + b).0)
                            =~= (seq![f] + drain_frames(tail).0) + drain_frames(drain_frames(tail).1 + b).0);
                    }
                },
            }
        },
    }
}

/// Decoding an encoded frame yields exactly its payload and leaves the rest
/// of the stream to be decoded on its own, even when the payload itself
/// contains `\r\n`.
pub proof fn lemma_frame_round_trip(q: Seq<u8>, rest: Seq<u8>)
    requires
        q.len() <= usize::MAX,
    ensures
        ({
            let s = cl_prefix() + dec_digits(q.len()) + seq![13u8, 10u8, 13u8, 10u8] + q + rest;
            drain_frames(s) == (seq![q] + drain_frames(rest).0, drain_frames(rest).1)
        }),
{
    let d = dec_digits(q.len());
    lemma_dec_digits(q.len());
    let s = cl_prefix() + d + seq![13u8, 10u8, 13u8, 10u8] + q + rest;
    let hl = 16 + d.len() as int;
    assert forall|j: int| 0 <= j < hl implies #[trigger] s[j] != 13 by {
        if j < 16 {
            assert(s[j] == cl_prefix()[j]);
        } else {
            assert(s[j] == d[j - 16]);
            assert(is_digit_byte(d[j - 16]));
        }
    }
    assert(s[hl] == 13);
    assert(s[hl + 1] == 10);
    lemma_first_crlf_scan(s, 0, hl);
    let h = s.subrange(0, hl);
    assert(h.subrange(0, 16) =~= cl_prefix());
    assert(h.skip(16) =~= d);
    assert(header_value(h) == Some(q.len() as int));
    assert(s[hl + 2] == 13);
    assert(s[hl + 3] == 10);
    assert(s.len() >= hl + 4 + q.len());
    assert(s.subrange(hl + 4, hl + 4 + q.len() as int) =~= q);
    assert(s.skip(hl + 4 + q.len() as int) =~= rest);
    assert(drain_frames(s).0 == seq![q] + drain_frames(rest).0);
    assert(drain_frames(s).1 == drain_frames(rest).1);
}

} // verus!
