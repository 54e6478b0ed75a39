use vstd::prelude::*;

use crate::error::StoreError;

verus! {

/// The byte that ends the data part of a snapshot.
pub const NEWLINE: u8 = 10;

/// The MD5 digest of a byte sequence.
pub uninterp spec fn md5_of(data: Seq<u8>) -> Seq<u8>;

/// Relies on `md5::compute`: the sixteen bytes of the MD5 digest of `data`.
#[verifier::external_body]
fn md5_digest(data: &[u8]) -> (r: Vec<u8>)
    ensures
        r@ == md5_of(data@),
        r@.len() == 16,
{
    md5::compute(data).to_vec()
}

/// The ASCII decimal digits of `n`, with no leading zero.
pub open spec fn decimal(n: nat) -> Seq<u8>
    decreases n,
{
    if n < 10 {
        seq![(48 + n) as u8]
    } else {
        decimal(n / 10) + seq![(48 + n % 10) as u8]
    }
}

/// A digest as text: the decimal value of each byte, in order, with no
/// separator.
pub open spec fn digest_text(d: Seq<u8>) -> Seq<u8>
    decreases d.len(),
{
    if d.len() == 0 {
        Seq::empty()
    } else {
        digest_text(d.drop_last()) + decimal(d.last() as nat)
    }
}

/// The snapshot file of `data`: the data, a newline, and the text of the
/// data's digest.
pub open spec fn framed(data: Seq<u8>, digest: Seq<u8>) -> Seq<u8> {
    data + seq![NEWLINE] + digest_text(digest)
}

/// The position of the last newline of `s`, or -1 when it has none.
pub open spec fn last_newline(s: Seq<u8>) -> int
    decreases s.len(),
{
    if s.len() == 0 {
        -1
    } else if s.last() == NEWLINE {
        s.len() - 1
    } else {
        last_newline(s.drop_last())
    }
}

/// What stands before the last newline of a snapshot file; empty when it has
/// none.
pub open spec fn data_part(s: Seq<u8>) -> Seq<u8> {
    if last_newline(s) < 0 {
        Seq::empty()
    } else {
        s.take(last_newline(s))
    }
}

/// What follows the last newline of a snapshot file; all of it when it has
/// none.
pub open spec fn checksum_part(s: Seq<u8>) -> Seq<u8> {
    s.skip(last_newline(s) + 1)
}

/// A snapshot file is intact when its checksum is the text of its data's
/// digest.
pub open spec fn intact(s: Seq<u8>) -> bool {
    checksum_part(s) == digest_text(md5_of(data_part(s)))
}

/// Appends the decimal digits of `b`.
fn push_decimal(out: &mut Vec<u8>, b: u8)
    ensures
        final(out)@ == old(out)@ + decimal(b as nat),
{
    let ghost start = out@;
    if b >= 100 {
        out.push(48 + b / 100);
        out.push(48 + (b / 10) % 10);
        out.push(48 + b % 10);
        assert(decimal((b / 100) as nat) == seq![(48 + b / 100) as u8]);
        assert(decimal((b / 10) as nat) == decimal((b / 100) as nat) + seq![(48 + (b / 10) % 10) as u8]);
    } else if b >= 10 {
        out.push(48 + b / 10);
        out.push(48 + b % 10);
        assert(decimal((b / 10) as nat) == seq![(48 + b / 10) as u8]);
    } else {
        out.push(48 + b);
    }
    assert(out@ =~= start + decimal(b as nat));
}

/// The text of a digest: each byte in decimal, with no separator.
pub fn checksum_text(digest: &[u8]) -> (r: Vec<u8>)
    ensures
        r@ == digest_text(digest@),
{
    let mut out: Vec<u8> = Vec::new();
    let mut i: usize = 0;
    while i < digest.len()
        invariant
            i <= digest@.len(),
            out@ == digest_text(digest@.take(i as int)),
        decreases digest@.len() - i,
    {
        proof {
            assert(digest@.take(i + 1).drop_last() =~= digest@.take(i as int));
        }
        push_decimal(&mut out, digest[i]);
        i = i + 1;
    }
    assert(digest@.take(i as int) =~= digest@);
    out
}

/// The snapshot file of `data` whose digest is `digest`.
pub fn frame_with_digest(data: &[u8], digest: &[u8]) -> (r: Vec<u8>)
    ensures
        r@ == framed(data@, digest@),
{
    let mut out: Vec<u8> = Vec::new();
    let mut i: usize = 0;
    while i < data.len()
        invariant
            i <= data@.len(),
            out@ == data@.take(i as int),
        decreases data@.len() - i,
    {
        out.push(data[i]);
        i = i + 1;
        assert(out@ =~= data@.take(i as int));
    }
    out.push(NEWLINE);
    let mut text = checksum_text(digest);
    out.append(&mut text);
    assert(out@ =~= framed(data@, digest@));
    out
}

/// The snapshot file of `data`: the data, a newline, and the text of its MD5
/// digest.
pub fn frame_snapshot(data: &[u8]) -> (r: Vec<u8>)
    ensures
        r@ == framed(data@, md5_of(data@)),
{
    let digest = md5_digest(data);
    frame_with_digest(data, digest.as_slice())
}

proof fn lemma_last_newline_suffix(s: Seq<u8>, i: int)
    requires
        0 <= i <= s.len(),
        forall|j: int| i <= j < s.len() ==> s[j] != NEWLINE,
    ensures
        last_newline(s) == last_newline(s.take(i)),
    decreases s.len() - i,
{
    if i < s.len() {
        assert(s.drop_last().take(i) =~= s.take(i));
        lemma_last_newline_suffix(s.drop_last(), i);
    } else {
        assert(s.take(i) =~= s);
    }
}

/// A copy of `s[from..to]`.
fn copy_range(s: &[u8], from: usize, to: usize) -> (r: Vec<u8>)
    requires
        from <= to <= s@.len(),
    ensures
        r@ == s@.subrange(from as int, to as int),
{
    let mut out: Vec<u8> = Vec::new();
    let mut i: usize = from;
    while i < to
        invariant
            from <= i <= to,
            to <= s@.len(),
            out@ == s@.subrange(from as int, i as int),
        decreases to - i,
    {
        out.push(s[i]);
        i = i + 1;
        assert(out@ =~= s@.subrange(from as int, i as int));
    }
    out
}

/// Splits a snapshot file at its last newline into the data and the checksum.
pub fn split_snapshot(content: &[u8]) -> (r: (Vec<u8>, Vec<u8>))
    ensures
        r.0@ == data_part(content@),
        r.1@ == checksum_part(content@),
{
    let mut i: usize = content.len();
    while i > 0 && content[i - 1] != NEWLINE
        invariant
            i <= content@.len(),
            forall|j: int| i <= j < content@.len() ==> content@[j] != NEWLINE,
        decreases i,
    {
        i = i - 1;
    }
    proof {
        lemma_last_newline_suffix(content@, i as int);
        if i > 0 {
            assert(content@.take(i as int).last() == content@[i - 1]);
        } else {
            assert(content@.take(0) =~= Seq::<u8>::empty());
        }
    }
    if i == 0 {
        let data: Vec<u8> = Vec::new();
        let checksum = copy_range(content, 0, content.len());
        proof {
            assert(data@ =~= data_part(content@));
            assert(checksum@ =~= checksum_part(content@));
        }
        (data, checksum)
    } else {
        let data = copy_range(content, 0, i - 1);
        let checksum = copy_range(content, i, content.len());
        proof {
            assert(data@ =~= data_part(content@));
            assert(checksum@ =~= checksum_part(content@));
        }
        (data, checksum)
    }
}

/// Whether `checksum` is the text of `digest`.
pub fn checksum_matches(checksum: &[u8], digest: &[u8]) -> (r: bool)
    ensures
        r == (checksum@ == digest_text(digest@)),
{
    let expected = checksum_text(digest);
    if expected.len() != checksum.len() {
        return false;
    }
    let mut i: usize = 0;
    while i < checksum.len()
        invariant
            expected@.len() == checksum@.len(),
            expected@ == digest_text(digest@),
            i <= checksum@.len(),
            forall|j: int| 0 <= j < i ==> checksum@[j] == expected@[j],
        decreases checksum@.len() - i,
    {
        if checksum[i] != expected[i] {
            return false;
        }
        i = i + 1;
    }
    assert(checksum@ =~= expected@);
    true
}

/// The data of a snapshot file, once its checksum has been checked against
/// the MD5 digest of the data.
pub fn open_snapshot(content: &[u8]) -> (r: Result<Vec<u8>, StoreError>)
    ensures
        r is Ok <==> intact(content@),
        r matches Ok(d) ==> d@ == data_part(content@),
        r matches Err(e) ==> e == StoreError::Integrity,
{
    let (data, checksum) = split_snapshot(content);
    let digest = md5_digest(data.as_slice());
    if checksum_matches(checksum.as_slice(), digest.as_slice()) {
        Ok(data)
    } else {
        Err(StoreError::Integrity)
    }
}

proof fn lemma_decimal_digits(n: nat)
    ensures
        forall|j: int| 0 <= j < decimal(n).len() ==> 48 <= #[trigger] decimal(n)[j] <= 57,
    decreases n,
{
    if n >= 10 {
        lemma_decimal_digits(n / 10);
        let a = decimal(n / 10);
        assert forall|j: int| 0 <= j < decimal(n).len() implies 48 <= #[trigger] decimal(n)[j]
            <= 57 by {
            if j < a.len() {
                assert(decimal(n)[j] == a[j]);
            } else {
                assert(decimal(n)[j] == (48 + n % 10) as u8);
            }
        }
    } else {
        assert(decimal(n)[0] == (48 + n) as u8);
    }
}

proof fn lemma_digest_text_digits(d: Seq<u8>)
    ensures
        forall|j: int| 0 <= j < digest_text(d).len() ==> #[trigger] digest_text(d)[j] != NEWLINE,
    decreases d.len(),
{
    if d.len() > 0 {
        lemma_digest_text_digits(d.drop_last());
        lemma_decimal_digits(d.last() as nat);
        let a = digest_text(d.drop_last());
        let b = decimal(d.last() as nat);
        assert forall|j: int| 0 <= j < digest_text(d).len() implies #[trigger] digest_text(d)[j]
            != NEWLINE by {
            if j >= a.len() {
                assert(digest_text(d)[j] == b[j - a.len()]);
            } else {
                assert(digest_text(d)[j] == a[j]);
            }
        }
    }
}

proof fn lemma_framed_parts(data: Seq<u8>, digest: Seq<u8>)
    ensures
        data_part(framed(data, digest)) == data,
        checksum_part(framed(data, digest)) == digest_text(digest),
{
    let s = framed(data, digest);
    let n = data.len() as int;
    lemma_digest_text_digits(digest);
    assert forall|j: int| n + 1 <= j < s.len() implies s[j] != NEWLINE by {
        assert(s[j] == digest_text(digest)[j - n - 1]);
    }
    lemma_last_newline_suffix(s, n + 1);
    assert(s.take(n + 1).last() == NEWLINE);
    assert(s.take(n) =~= data);
    assert(s.skip(n + 1) =~= digest_text(digest));
}

/// A snapshot file read back as it was written is intact, and its data is
/// the data that was written.
pub proof fn lemma_snapshot_round_trip(data: Seq<u8>)
    ensures
        intact(framed(data, md5_of(data))),
        data_part(framed(data, md5_of(data))) == data,
{
    lemma_framed_parts(data, md5_of(data));
}

/// A snapshot file of `data` whose data part has been replaced by `altered` is
/// accepted only if the checksum text of `altered` is that of `data`; it is
/// then read as `altered`.
pub proof fn lemma_altered_data_detected(data: Seq<u8>, altered: Seq<u8>)
    ensures
        intact(framed(altered, md5_of(data))) <==> digest_text(md5_of(altered)) == digest_text(
            md5_of(data),
        ),
        data_part(framed(altered, md5_of(data))) == altered,
{
    lemma_framed_parts(altered, md5_of(data));
}

} // verus!
