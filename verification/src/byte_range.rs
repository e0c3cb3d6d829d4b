//! The byte range of a signature: finding the reserved `/Contents` digits
//! in a PDF with its signature update appended, writing the `/ByteRange`
//! that leaves them out, and embedding the signature in their place.
use vstd::prelude::*;
use vstd::utf8::{encode_utf8, is_ascii_chars, is_ascii_chars_encode_utf8};
use crate::pdf::{
    build_update, dec, join_seq, lemma_encode_utf8_concat, objects_bytes, strings_view, sig_head, sig_object_text, sig_tail,
    update_bytes, update_objects, ObjectNumbers, PdfSignError, SignatureUpdateParts,
    BYTE_RANGE_PLACEHOLDER, CONTENTS_KEY, HEX_LEN, SIG_BYTES,
};
use crate::text::{
    decimal_left_aligned, decimal_seq, occurs_at, pad_right, push_all, push_char, push_repeated,
    repeat_char,
};

verus! {

/// `needle` occurs at `i`, and nowhere from `from` up to `i`.
pub open spec fn is_first_match(hay: Seq<u8>, needle: Seq<u8>, from: int, i: int) -> bool {
    &&& from <= i
    &&& occurs_at(hay, needle, i)
    &&& forall|j: int| from <= j < i ==> !occurs_at(hay, needle, j)
}

/// The first position of `needle` in `haystack`.
pub fn find_subsequence(haystack: &[u8], needle: &[u8]) -> (r: Option<usize>)
    requires
        needle@.len() > 0,
    ensures
        match r {
            Some(i) => is_first_match(haystack@, needle@, 0, i as int),
            None => forall|i: int| !occurs_at(haystack@, needle@, i),
        },
{
    let n = needle.len();
    if n > haystack.len() {
        return None;
    }
    let mut i: usize = 0;
    while i <= haystack.len() - n
        invariant
            n == needle@.len(),
            0 < n <= haystack@.len(),
            i <= haystack@.len() - n + 1,
            forall|j: int| 0 <= j < i ==> !occurs_at(haystack@, needle@, j),
        decreases haystack.len() - i,
    {
        let mut k: usize = 0;
        while k < n && haystack[i + k] == needle[k]
            invariant
                n == needle@.len(),
                k <= n,
                0 < n <= haystack.len(),
                i <= haystack.len() - n,
                forall|t: int| 0 <= t < k ==> haystack@[i + t] == needle@[t],
            decreases n - k,
        {
            k = k + 1;
        }
        if k == n {
            assert(haystack@.subrange(i as int, i + n) =~= needle@);
            return Some(i);
        }
        assert(haystack@.subrange(i as int, i + n)[k as int] != needle@[k as int]);
        i = i + 1;
    }
    None
}

/// The bytes of `/Contents <`.
pub open spec fn key_bytes() -> Seq<u8> {
    encode_utf8(CONTENTS_KEY@)
}

/// The bytes of the `/ByteRange` placeholder.
pub open spec fn placeholder_bytes() -> Seq<u8> {
    encode_utf8(BYTE_RANGE_PLACEHOLDER@)
}

proof fn lemma_key_bytes()
    ensures
        is_ascii_chars(CONTENTS_KEY@),
        key_bytes().len() == 11,
        CONTENTS_KEY@.len() == 11,
        key_bytes()[0] == 47u8,
        key_bytes()[1] == 67u8,
        CONTENTS_KEY@[0] == '/',
        CONTENTS_KEY@[1] == 'C',
        CONTENTS_KEY@[10] == '<',
{
    reveal_strlit("/Contents <");
    assert(is_ascii_chars(CONTENTS_KEY@));
    is_ascii_chars_encode_utf8(CONTENTS_KEY@);
}

proof fn lemma_placeholder_bytes()
    ensures
        is_ascii_chars(BYTE_RANGE_PLACEHOLDER@),
        placeholder_bytes().len() == 47,
        BYTE_RANGE_PLACEHOLDER@.len() == 47,
        placeholder_bytes()[0] == 47u8,
        placeholder_bytes()[1] == 66u8,
        BYTE_RANGE_PLACEHOLDER@[0] == '/',
        forall|k: int|
            1 <= k < BYTE_RANGE_PLACEHOLDER@.len() ==> #[trigger] BYTE_RANGE_PLACEHOLDER@[k] != '/',
{
    reveal_strlit("/ByteRange [0 AAAAAAAAAA BBBBBBBBBB CCCCCCCCCC]");
    assert(is_ascii_chars(BYTE_RANGE_PLACEHOLDER@));
    is_ascii_chars_encode_utf8(BYTE_RANGE_PLACEHOLDER@);
}

/// Searching a suffix is searching the whole from where the suffix starts.
proof fn lemma_occurs_shift(hay: Seq<u8>, needle: Seq<u8>, from: int, j: int)
    requires
        0 <= from <= hay.len(),
        0 <= j,
    ensures
        occurs_at(hay.subrange(from, hay.len() as int), needle, j) == occurs_at(hay, needle, from + j),
{
    if j + needle.len() <= hay.len() - from {
        assert(hay.subrange(from, hay.len() as int).subrange(j, j + needle.len()) =~= hay.subrange(
            from + j,
            from + j + needle.len(),
        ));
    }
}

/// Where the hexadecimal contents of the signature start: the position of
/// the `<` of the first `/Contents <` at or after `from`.
pub fn find_contents_hex_start(pdf: &[u8], from: usize) -> (r: Option<usize>)
    requires
        from <= pdf@.len(),
    ensures
        match r {
            Some(b) => b >= 10 && is_first_match(pdf@, key_bytes(), from as int, b - 10),
            None => forall|i: int| from <= i ==> !occurs_at(pdf@, key_bytes(), i),
        },
{
    proof {
        lemma_key_bytes();
    }
    let key = CONTENTS_KEY.as_bytes();
    let tail = &pdf[from..pdf.len()];
    match find_subsequence(tail, key) {
        Some(p) => {
            proof {
                lemma_occurs_shift(pdf@, key@, from as int, p as int);
                assert forall|j: int| from <= j < from + p implies !occurs_at(pdf@, key_bytes(), j) by {
                    lemma_occurs_shift(pdf@, key@, from as int, j - from);
                }
            }
            Some(from + p + key.len() - 1)
        },
        None => {
            proof {
                assert forall|j: int| from <= j implies !occurs_at(pdf@, key_bytes(), j) by {
                    lemma_occurs_shift(pdf@, key@, from as int, j - from);
                }
            }
            None
        },
    }
}

/// The signature object up to and including its reserved digits, with
/// `entry` as its `/ByteRange`.
pub open spec fn sig_prefix_with(n: ObjectNumbers, entry: Seq<char>) -> Seq<char> {
    sig_head(n) + entry + "\n"@ + CONTENTS_KEY@ + repeat_char('0', HEX_LEN as nat)
}

/// The signature object as first written, up to and including its reserved digits.
pub open spec fn sig_prefix(n: ObjectNumbers) -> Seq<char> {
    sig_prefix_with(n, BYTE_RANGE_PLACEHOLDER@)
}

/// What a `/ByteRange` entry looks like: 47 ASCII characters, `/B` first
/// and no other `/`.
pub open spec fn range_entry_shape(e: Seq<char>) -> bool {
    &&& is_ascii_chars(e)
    &&& e.len() == 47
    &&& e[0] == '/'
    &&& e[1] == 'B'
    &&& forall|k: int| 1 <= k < e.len() ==> #[trigger] e[k] != '/'
}

proof fn lemma_head_facts(n: ObjectNumbers)
    ensures
        is_ascii_chars(sig_head(n)),
        forall|j: int|
            0 <= j < sig_head(n).len() - 1 ==> !(#[trigger] sig_head(n)[j] == '/' && (sig_head(n)[j + 1]
                == 'B' || sig_head(n)[j + 1] == 'C')),
        sig_head(n)[sig_head(n).len() - 1] != '/',
{
    let d = dec(n.signature as nat);
    lemma_decimal_digits(n.signature as nat);
    reveal_strlit(" 0 obj\n<<\n/Type /Sig\n/Filter /Adobe.PPKLite\n/SubFilter /adbe.pkcs7.detached\n");
    let l = " 0 obj\n<<\n/Type /Sig\n/Filter /Adobe.PPKLite\n/SubFilter /adbe.pkcs7.detached\n"@;
    let h = sig_head(n);
    assert(h == d + l);
    assert(is_ascii_chars(l));
    assert(forall|j: int| 0 <= j < l.len() - 1 ==> !(#[trigger] l[j] == '/' && (l[j + 1] == 'B' || l[j + 1] == 'C')));
    assert forall|j: int| 0 <= j < h.len() implies '\0' <= #[trigger] h[j] <= '\u{7f}' by {
        if j < d.len() {
            assert(h[j] == d[j]);
        } else {
            assert(h[j] == l[j - d.len()]);
        }
    }
    assert forall|j: int| 0 <= j < h.len() - 1 implies !(#[trigger] h[j] == '/' && (h[j + 1] == 'B' || h[j + 1] == 'C')) by {
        if j < d.len() {
            assert(h[j] == d[j]);
        } else {
            assert(h[j] == l[j - d.len()]);
            assert(h[j + 1] == l[j + 1 - d.len()]);
        }
    }
    assert(l[l.len() - 1] == '\n');
}

proof fn lemma_prefix_facts(n: ObjectNumbers, e: Seq<char>)
    requires
        range_entry_shape(e),
    ensures
        ({
            let q = sig_prefix_with(n, e);
            let h = sig_head(n).len() as int;
            &&& is_ascii_chars(q)
            &&& q.len() == h + 59 + HEX_LEN
            &&& q.subrange(h, h + 47) == e
            &&& q.subrange(h + 48, h + 59) == CONTENTS_KEY@
            &&& forall|j: int| 0 <= j < h + 48 ==> !(#[trigger] q[j] == '/' && q[j + 1] == 'C')
            &&& forall|j: int| 0 <= j < h ==> !(#[trigger] q[j] == '/' && q[j + 1] == 'B')
        }),
{
    let q = sig_prefix_with(n, e);
    let hd = sig_head(n);
    let h = hd.len() as int;
    let z = repeat_char('0', HEX_LEN as nat);
    lemma_head_facts(n);
    lemma_key_bytes();
    reveal_strlit("\n");
    assert(q == hd + e + "\n"@ + CONTENTS_KEY@ + z);
    assert(q.len() == h + 59 + HEX_LEN);
    assert forall|j: int| 0 <= j < q.len() implies '\0' <= #[trigger] q[j] <= '\u{7f}' by {
        if j < h {
            assert(q[j] == hd[j]);
        } else if j < h + 47 {
            assert(q[j] == e[j - h]);
        } else if j == h + 47 {
            assert(q[j] == '\n');
        } else if j < h + 59 {
            assert(q[j] == CONTENTS_KEY@[j - h - 48]);
        } else {
            assert(q[j] == '0');
        }
    }
    assert(q.subrange(h, h + 47) =~= e);
    assert(q.subrange(h + 48, h + 59) =~= CONTENTS_KEY@);
    assert forall|j: int| 0 <= j < h + 48 implies !(#[trigger] q[j] == '/' && q[j + 1] == 'C') by {
        if j < h - 1 {
            assert(q[j] == hd[j]);
            assert(q[j + 1] == hd[j + 1]);
        } else if j == h - 1 {
            assert(q[j] == hd[j]);
        } else if j < h + 46 {
            assert(q[j] == e[j - h]);
            assert(q[j + 1] == e[j + 1 - h]);
        } else if j == h + 46 {
            assert(q[j] == e[46]);
        } else {
            assert(q[j] == '\n');
        }
    }
    assert forall|j: int| 0 <= j < h implies !(#[trigger] q[j] == '/' && q[j + 1] == 'B') by {
        if j < h - 1 {
            assert(q[j] == hd[j]);
            assert(q[j + 1] == hd[j + 1]);
        } else {
            assert(q[j] == hd[j]);
        }
    }
}

proof fn lemma_placeholder_shape()
    ensures
        range_entry_shape(BYTE_RANGE_PLACEHOLDER@),
{
    lemma_placeholder_bytes();
    reveal_strlit("/ByteRange [0 AAAAAAAAAA BBBBBBBBBB CCCCCCCCCC]");
}

/// Position of the `<` of the signature's contents in a PDF of `len` bytes
/// with the update appended.
pub open spec fn contents_start_of(len: nat, n: ObjectNumbers) -> nat {
    len + sig_head(n).len() + 58
}

pub proof fn lemma_decimal_digits(n: nat)
    ensures
        decimal_seq(n).len() >= 1,
        forall|i: int| 0 <= i < decimal_seq(n).len() ==> '0' <= #[trigger] decimal_seq(n)[i] <= '9',
    decreases n,
{
    if n >= 10 {
        lemma_decimal_digits(n / 10);
    }
}

proof fn lemma_encode_len(s: Seq<char>)
    ensures
        encode_utf8(s).len() >= s.len(),
    decreases s.len(),
{
    if s.len() > 0 {
        lemma_encode_len(s.drop_first());
    }
}

proof fn lemma_objects_bytes_prefix(objs: Seq<(Seq<char>, (u32, u16))>, i: int, k: int)
    requires
        0 <= i <= k,
    ensures
        objects_bytes(objs, i).len() <= objects_bytes(objs, k).len(),
        objects_bytes(objs, k).subrange(0, objects_bytes(objs, i).len() as int) == objects_bytes(objs, i),
    decreases k - i,
{
    if i < k {
        lemma_objects_bytes_prefix(objs, i, k - 1);
        assert(objects_bytes(objs, k).subrange(0, objects_bytes(objs, i).len() as int)
            =~= objects_bytes(objs, k - 1).subrange(0, objects_bytes(objs, i).len() as int));
    } else {
        assert(objects_bytes(objs, k).subrange(0, objects_bytes(objs, i).len() as int) =~= objects_bytes(objs, i));
    }
}

/// The update begins with the signature object, whose bytes up to the
/// reserved digits are followed by at least one more.
proof fn lemma_update_prefix(len: nat, n: ObjectNumbers, p: SignatureUpdateParts)
    ensures
        encode_utf8(sig_prefix(n)).len() < update_bytes(len, n, p).len(),
        update_bytes(len, n, p).subrange(0, encode_utf8(sig_prefix(n)).len() as int) == encode_utf8(
            sig_prefix(n),
        ),
{
    let objs = update_objects(n, p);
    let text = sig_object_text(n, p.signing_time@);
    assert(objs[0].0 == text);
    assert(text == sig_prefix(n) + sig_tail(p.signing_time@));
    lemma_encode_utf8_concat(sig_prefix(n), sig_tail(p.signing_time@));
    reveal_strlit(">\n/Reason (Assinado digitalmente com Token A3)\n/Location (Brasil)\n/M (D:");
    lemma_encode_len(sig_tail(p.signing_time@));
    assert(objects_bytes(objs, 0) =~= Seq::<u8>::empty());
    assert(objects_bytes(objs, 1) =~= encode_utf8(text));
    lemma_objects_bytes_prefix(objs, 1, objs.len() as int);
    let body = objects_bytes(objs, objs.len() as int);
    let pre = encode_utf8(sig_prefix(n));
    let u = update_bytes(len, n, p);
    assert(u.subrange(0, body.len() as int) =~= body);
    assert(u.subrange(0, pre.len() as int) =~= body.subrange(0, pre.len() as int));
    assert(body.subrange(0, pre.len() as int) =~= encode_utf8(text).subrange(0, pre.len() as int));
    assert(encode_utf8(text).subrange(0, pre.len() as int) =~= pre);
}

/// The byte right after the reserved digits in the update is the `>` that
/// closes them.
proof fn lemma_update_closing(len: nat, n: ObjectNumbers, p: SignatureUpdateParts)
    ensures
        encode_utf8(sig_prefix(n)).len() < update_bytes(len, n, p).len(),
        update_bytes(len, n, p)[encode_utf8(sig_prefix(n)).len() as int] == 62u8,
{
    let objs = update_objects(n, p);
    let text = sig_object_text(n, p.signing_time@);
    let tail = sig_tail(p.signing_time@);
    assert(objs[0].0 == text);
    assert(text == sig_prefix(n) + tail);
    lemma_encode_utf8_concat(sig_prefix(n), tail);
    reveal_strlit(">\n/Reason (Assinado digitalmente com Token A3)\n/Location (Brasil)\n/M (D:");
    assert(tail[0] == '>');
    assert((62u32 & 0x7Fu32) as u8 == 62u8) by (bit_vector);
    assert(encode_utf8(tail)[0] == 62u8);
    lemma_encode_len(tail);
    assert(objects_bytes(objs, 0) =~= Seq::<u8>::empty());
    assert(objects_bytes(objs, 1) =~= encode_utf8(text));
    lemma_objects_bytes_prefix(objs, 1, objs.len() as int);
    let body = objects_bytes(objs, objs.len() as int);
    let pre = encode_utf8(sig_prefix(n));
    let u = update_bytes(len, n, p);
    assert(u.subrange(0, body.len() as int) =~= body);
    assert(body[pre.len() as int] == body.subrange(0, encode_utf8(text).len() as int)[pre.len() as int]);
    assert(encode_utf8(text)[pre.len() as int] == encode_utf8(tail)[0]);
    assert(u[pre.len() as int] == body[pre.len() as int]);
}

/// `x` is written with at most ten decimal digits.
pub open spec fn fits_ten_digits(x: nat) -> bool {
    decimal_seq(x).len() <= 10
}

/// The `/ByteRange` entry written once the offsets are known:
/// `[0 b1 b2 b3]`, each number left-aligned in ten columns.
pub open spec fn byte_range_entry(b1: nat, b2: nat, b3: nat) -> Seq<char> {
    "/ByteRange [0 "@ + pad_right(dec(b1), 10, ' ') + " "@ + pad_right(dec(b2), 10, ' ') + " "@
        + pad_right(dec(b3), 10, ' ') + "]"@
}

proof fn lemma_padded(x: nat)
    ensures
        pad_right(dec(x), 10, ' ').len() >= 10,
        fits_ten_digits(x) ==> pad_right(dec(x), 10, ' ').len() == 10,
        forall|i: int|
            0 <= i < pad_right(dec(x), 10, ' ').len() ==> ('0' <= #[trigger] pad_right(dec(x), 10, ' ')[i]
                <= '9' || pad_right(dec(x), 10, ' ')[i] == ' '),
{
    lemma_decimal_digits(x);
    let d = dec(x);
    let q = pad_right(d, 10, ' ');
    assert forall|i: int| 0 <= i < q.len() implies ('0' <= #[trigger] q[i] <= '9' || q[i] == ' ') by {
        if i < d.len() {
            assert(q[i] == d[i]);
        }
    }
}

proof fn lemma_entry_shape(b1: nat, b2: nat, b3: nat)
    ensures
        fits_ten_digits(b1) && fits_ten_digits(b2) && fits_ten_digits(b3) ==> range_entry_shape(
            byte_range_entry(b1, b2, b3),
        ),
        !(fits_ten_digits(b1) && fits_ten_digits(b2) && fits_ten_digits(b3)) ==> encode_utf8(
            byte_range_entry(b1, b2, b3),
        ).len() > 47,
{
    reveal_strlit("/ByteRange [0 ");
    reveal_strlit(" ");
    reveal_strlit("]");
    lemma_padded(b1);
    lemma_padded(b2);
    lemma_padded(b3);
    let e = byte_range_entry(b1, b2, b3);
    let a = "/ByteRange [0 "@;
    let p1 = pad_right(dec(b1), 10, ' ');
    let p2 = pad_right(dec(b2), 10, ' ');
    let p3 = pad_right(dec(b3), 10, ' ');
    assert(e == a + p1 + " "@ + p2 + " "@ + p3 + "]"@);
    lemma_encode_len(e);
    if fits_ten_digits(b1) && fits_ten_digits(b2) && fits_ten_digits(b3) {
        assert(e.len() == 47);
        assert forall|k: int| 0 <= k < e.len() implies '\0' <= #[trigger] e[k] <= '\u{7f}' && (k >= 1
            ==> e[k] != '/') by {
            if k < 14 {
                assert(e[k] == a[k]);
            } else if k < 24 {
                assert(e[k] == p1[k - 14]);
            } else if k == 24 {
            } else if k < 35 {
                assert(e[k] == p2[k - 25]);
            } else if k == 35 {
            } else if k < 46 {
                assert(e[k] == p3[k - 36]);
            } else {
            }
        }
        assert(e[0] == '/');
        assert(e[1] == 'B');
    }
}

fn byte_range_text(b1: usize, b2: usize, b3: usize) -> (r: String)
    ensures
        r@ == byte_range_entry(b1 as nat, b2 as nat, b3 as nat),
{
    let mut t = String::from_str("/ByteRange [0 ");
    let d = decimal_left_aligned(b1 as u64, 10);
    push_all(&mut t, d.as_str());
    push_all(&mut t, " ");
    let d = decimal_left_aligned(b2 as u64, 10);
    push_all(&mut t, d.as_str());
    push_all(&mut t, " ");
    let d = decimal_left_aligned(b3 as u64, 10);
    push_all(&mut t, d.as_str());
    push_all(&mut t, "]");
    t
}

/// `s` with the bytes from `at` on replaced by `r`.
pub open spec fn splice(s: Seq<u8>, at: int, r: Seq<u8>) -> Seq<u8> {
    s.subrange(0, at) + r + s.subrange(at + r.len(), s.len() as int)
}

/// The PDF with its signature update appended, before the byte range is known.
pub open spec fn unsigned_bytes(original: Seq<u8>, n: ObjectNumbers, p: SignatureUpdateParts) -> Seq<u8> {
    original + update_bytes(original.len(), n, p)
}

/// The end of the reserved contents, just after their `>`.
pub open spec fn contents_end_of(len: nat, n: ObjectNumbers) -> nat {
    contents_start_of(len, n) + HEX_LEN as nat + 2
}

/// The PDF ready for signing: the update appended and the placeholder
/// replaced by the byte range `[0 b1 b2 b3]` that leaves out the reserved
/// contents.
pub open spec fn prepared_bytes(original: Seq<u8>, n: ObjectNumbers, p: SignatureUpdateParts) -> Seq<u8> {
    let u = unsigned_bytes(original, n, p);
    let b1 = contents_start_of(original.len(), n);
    let b2 = contents_end_of(original.len(), n);
    splice(
        u,
        (original.len() + sig_head(n).len()) as int,
        encode_utf8(byte_range_entry(b1, b2, (u.len() - b2) as nat)),
    )
}

/// The offsets of the prepared PDF fit in `usize` and in ten digits each.
pub open spec fn preparation_fits(original: Seq<u8>, n: ObjectNumbers, p: SignatureUpdateParts) -> bool {
    let u = unsigned_bytes(original, n, p);
    let b1 = contents_start_of(original.len(), n);
    let b2 = contents_end_of(original.len(), n);
    &&& u.len() <= usize::MAX
    &&& fits_ten_digits(b1)
    &&& fits_ten_digits(b2)
    &&& fits_ten_digits((u.len() - b2) as nat)
}

/// In `pdf`, from `base` on, stand the bytes of the signature object up to
/// its digits, with `e` as its byte range; so the first `/Contents <` from
/// `base` on is the signature's.
proof fn lemma_first_contents(pdf: Seq<u8>, base: int, n: ObjectNumbers, e: Seq<char>)
    requires
        range_entry_shape(e),
        0 <= base,
        base + sig_prefix_with(n, e).len() <= pdf.len(),
        forall|k: int|
            0 <= k < sig_prefix_with(n, e).len() ==> pdf[base + k] == #[trigger] sig_prefix_with(n, e)[k] as u8,
    ensures
        is_first_match(pdf, key_bytes(), base, base + sig_head(n).len() + 48),
{
    let q = sig_prefix_with(n, e);
    let h = sig_head(n).len() as int;
    lemma_prefix_facts(n, e);
    lemma_key_bytes();
    is_ascii_chars_encode_utf8(CONTENTS_KEY@);
    let at = base + h + 48;
    assert forall|t: int| 0 <= t < 11 implies pdf.subrange(at, at + 11)[t] == key_bytes()[t] by {
        assert(pdf[at + t] == q[h + 48 + t] as u8);
        assert(q[h + 48 + t] == q.subrange(h + 48, h + 59)[t]);
        assert(CONTENTS_KEY@[t] as u8 == key_bytes()[t]);
    }
    assert(pdf.subrange(at, at + 11) =~= key_bytes());
    assert forall|j: int| base <= j < at implies !occurs_at(pdf, key_bytes(), j) by {
        if occurs_at(pdf, key_bytes(), j) {
            assert(pdf.subrange(j, j + 11)[0] == key_bytes()[0]);
            assert(pdf.subrange(j, j + 11)[1] == key_bytes()[1]);
            assert(pdf[j] == q[j - base] as u8);
            assert(pdf[j + 1] == q[j + 1 - base] as u8);
            assert(q[j - base] == '/' && q[j - base + 1] == 'C');
        }
    }
}

/// In `u`, from its start, stand the bytes of the signature object as first
/// written; so the first placeholder in `u` is the signature's.
proof fn lemma_first_placeholder(u: Seq<u8>, n: ObjectNumbers)
    requires
        sig_prefix(n).len() <= u.len(),
        forall|k: int| 0 <= k < sig_prefix(n).len() ==> u[k] == #[trigger] sig_prefix(n)[k] as u8,
    ensures
        is_first_match(u, placeholder_bytes(), 0, sig_head(n).len() as int),
{
    let q = sig_prefix(n);
    let h = sig_head(n).len() as int;
    lemma_placeholder_shape();
    lemma_placeholder_bytes();
    lemma_prefix_facts(n, BYTE_RANGE_PLACEHOLDER@);
    is_ascii_chars_encode_utf8(BYTE_RANGE_PLACEHOLDER@);
    assert forall|t: int| 0 <= t < 47 implies u.subrange(h, h + 47)[t] == placeholder_bytes()[t] by {
        assert(u[h + t] == q[h + t] as u8);
        assert(q[h + t] == q.subrange(h, h + 47)[t]);
        assert(BYTE_RANGE_PLACEHOLDER@[t] as u8 == placeholder_bytes()[t]);
    }
    assert(u.subrange(h, h + 47) =~= placeholder_bytes());
    assert forall|j: int| 0 <= j < h implies !occurs_at(u, placeholder_bytes(), j) by {
        if occurs_at(u, placeholder_bytes(), j) {
            assert(u.subrange(j, j + 47)[0] == placeholder_bytes()[0]);
            assert(u.subrange(j, j + 47)[1] == placeholder_bytes()[1]);
            assert(u[j] == q[j] as u8);
            assert(u[j + 1] == q[j + 1] as u8);
            assert(q[j] == '/' && q[j + 1] == 'B');
        }
    }
}

/// The update's first bytes, read as characters, are the signature object
/// as first written.
proof fn lemma_unsigned_prefix(original: Seq<u8>, n: ObjectNumbers, p: SignatureUpdateParts)
    ensures
        original.len() + sig_prefix(n).len() < unsigned_bytes(original, n, p).len(),
        forall|k: int|
            0 <= k < sig_prefix(n).len() ==> unsigned_bytes(original, n, p)[original.len() + k]
                == #[trigger] sig_prefix(n)[k] as u8,
        forall|k: int|
            0 <= k < sig_prefix(n).len() ==> update_bytes(original.len(), n, p)[k]
                == #[trigger] sig_prefix(n)[k] as u8,
{
    let u = update_bytes(original.len(), n, p);
    let q = sig_prefix(n);
    lemma_update_prefix(original.len(), n, p);
    lemma_placeholder_shape();
    lemma_prefix_facts(n, BYTE_RANGE_PLACEHOLDER@);
    is_ascii_chars_encode_utf8(q);
    assert forall|k: int| 0 <= k < q.len() implies u[k] == #[trigger] q[k] as u8 by {
        assert(u[k] == u.subrange(0, encode_utf8(q).len() as int)[k]);
    }
}

/// A PDF with its signature update appended and its byte range written,
/// waiting for the signature.
pub struct PreparedSignature {
    pdf: Vec<u8>,
    original_len: usize,
    contents_start: usize,
    contents_end: usize,
}

impl PreparedSignature {
    /// The bytes of the prepared PDF.
    pub closed spec fn bytes(&self) -> Seq<u8> {
        self.pdf@
    }

    /// The length of the PDF before the update.
    pub closed spec fn original_len(&self) -> nat {
        self.original_len as nat
    }

    /// Where the reserved contents start: the position of their `<`.
    pub closed spec fn contents_start(&self) -> nat {
        self.contents_start as nat
    }

    /// Where the reserved contents end: just after their `>`.
    pub closed spec fn contents_end(&self) -> nat {
        self.contents_end as nat
    }

    /// The reserved contents lie inside the PDF, after its original bytes,
    /// and the first `/Contents <` after those bytes is theirs.
    #[verifier::type_invariant]
    spec fn inv(&self) -> bool {
        &&& self.original_len + 10 <= self.contents_start
        &&& self.contents_end == self.contents_start + HEX_LEN + 2
        &&& self.contents_end <= self.pdf@.len()
        &&& self.pdf@[self.contents_end - 1] == 62u8
        &&& is_first_match(self.pdf@, key_bytes(), self.original_len as int, self.contents_start - 10)
    }

    /// The bytes of the prepared PDF.
    pub fn pdf(&self) -> (r: &[u8])
        ensures
            r@ == self.bytes(),
    {
        self.pdf.as_slice()
    }

    /// The `/ByteRange` written in the PDF: the length of the first signed
    /// part, where the second starts, and its length.
    pub fn byte_range(&self) -> (r: (usize, usize, usize))
        ensures
            r.0 == self.contents_start(),
            r.1 == self.contents_end(),
            r.2 == self.bytes().len() - self.contents_end(),
    {
        proof {
            use_type_invariant(self);
        }
        (self.contents_start, self.contents_end, self.pdf.len() - self.contents_end)
    }
}

/// The PDF with its signature update appended.
fn append_update(original: &[u8], n: &ObjectNumbers, p: &SignatureUpdateParts) -> (r: Result<
    Vec<u8>,
    PdfSignError,
>)
    ensures
        unsigned_bytes(original@, *n, *p).len() > usize::MAX ==> r matches Err(
            PdfSignError::DocumentTooLarge,
        ),
        unsigned_bytes(original@, *n, *p).len() <= usize::MAX ==> (r matches Ok(v) && v@
            == unsigned_bytes(original@, *n, *p)),
{
    let len = original.len();
    let upd = match build_update(len, n, p) {
        Ok(b) => b,
        Err(e) => {
            return Err(e);
        },
    };
    if upd.len() > usize::MAX - len {
        return Err(PdfSignError::DocumentTooLarge);
    }
    let mut pdf = vstd::slice::slice_to_vec(original);
    pdf.extend_from_slice(upd.as_slice());
    Ok(pdf)
}

/// Overwrites the bytes of `pdf` from `at` on with `b`.
fn overwrite(pdf: &mut Vec<u8>, at: usize, b: &[u8])
    requires
        at + b@.len() <= old(pdf)@.len(),
    ensures
        final(pdf)@ == splice(old(pdf)@, at as int, b@),
{
    let mut k: usize = 0;
    while k < b.len()
        invariant
            k <= b@.len(),
            at + b@.len() <= pdf.len(),
            pdf@.len() == old(pdf)@.len(),
            forall|i: int|
                0 <= i < old(pdf)@.len() ==> #[trigger] pdf@[i] == if at <= i < at + k {
                    b@[i - at]
                } else {
                    old(pdf)@[i]
                },
        decreases b.len() - k,
    {
        pdf.set(at + k, b[k]);
        k = k + 1;
    }
    assert(pdf@ =~= splice(old(pdf)@, at as int, b@));
}

/// After the byte range is written at the placeholder, the first
/// `/Contents <` after the original bytes is still the signature's.
proof fn lemma_contents_after_writing(
    original: Seq<u8>,
    n: ObjectNumbers,
    p: SignatureUpdateParts,
    e: Seq<char>,
)
    requires
        range_entry_shape(e),
    ensures
        ({
            let pdf = splice(
                unsigned_bytes(original, n, p),
                (original.len() + sig_head(n).len()) as int,
                encode_utf8(e),
            );
            is_first_match(pdf, key_bytes(), original.len() as int, (original.len() + sig_head(n).len() + 48) as int)
        }),
{
    let len = original.len() as int;
    let h = sig_head(n).len() as int;
    let u = unsigned_bytes(original, n, p);
    let eb = encode_utf8(e);
    let pdf = splice(u, len + h, eb);
    lemma_unsigned_prefix(original, n, p);
    lemma_placeholder_shape();
    lemma_prefix_facts(n, BYTE_RANGE_PLACEHOLDER@);
    lemma_prefix_facts(n, e);
    is_ascii_chars_encode_utf8(e);
    let q = sig_prefix_with(n, e);
    assert forall|k: int| 0 <= k < q.len() implies pdf[len + k] == #[trigger] q[k] as u8 by {
        if h <= k < h + 47 {
            assert(pdf[len + k] == eb[k - h]);
            assert(q[k] == q.subrange(h, h + 47)[k - h]);
        } else if k < h {
            assert(pdf[len + k] == u[len + k]);
            assert(q[k] == sig_prefix(n)[k]);
        } else {
            assert(pdf[len + k] == u[len + k]);
            assert(q[k] == sig_prefix(n)[k]);
        }
    }
    lemma_first_contents(pdf, len, n, e);
}

/// Appends the signature update to `original` and writes the byte range
/// that leaves out the reserved contents.
#[verifier::rlimit(40)]
pub fn prepare_signature(original: &[u8], n: &ObjectNumbers, p: &SignatureUpdateParts) -> (r: Result<
    PreparedSignature,
    PdfSignError,
>)
    ensures
        !preparation_fits(original@, *n, *p) ==> r matches Err(PdfSignError::DocumentTooLarge),
        preparation_fits(original@, *n, *p) ==> (r matches Ok(ps) && ps.bytes() == prepared_bytes(
            original@,
            *n,
            *p,
        ) && ps.original_len() == original@.len() && ps.contents_start() == contents_start_of(
            original@.len(),
            *n,
        ) && ps.contents_end() == contents_end_of(original@.len(), *n)),
{
    let len = original.len();
    let mut pdf = match append_update(original, n, p) {
        Ok(v) => v,
        Err(e) => {
            return Err(e);
        },
    };
    let ghost h = sig_head(*n).len() as int;
    assert(is_first_match(pdf@, key_bytes(), len as int, len + h + 48)) by {
        lemma_unsigned_prefix(original@, *n, *p);
        lemma_placeholder_shape();
        lemma_first_contents(pdf@, len as int, *n, BYTE_RANGE_PLACEHOLDER@);
    }
    assert(len + h + 59 + HEX_LEN < pdf@.len()) by {
        lemma_unsigned_prefix(original@, *n, *p);
        lemma_placeholder_shape();
        lemma_prefix_facts(*n, BYTE_RANGE_PLACEHOLDER@);
    }
    let found = find_contents_hex_start(pdf.as_slice(), len);
    assert(found == Some((len + h + 58) as usize));
    let b1 = found.unwrap();
    let b2 = b1 + 1 + HEX_LEN + 1;
    let b3 = pdf.len() - b2;
    let entry = byte_range_text(b1, b2, b3);
    let eb = entry.as_str().as_bytes();
    let ph = BYTE_RANGE_PLACEHOLDER.as_bytes();
    assert(ph@.len() == 47) by {
        lemma_placeholder_bytes();
    }
    assert(eb@.len() == 47 <==> (fits_ten_digits(b1 as nat) && fits_ten_digits(b2 as nat)
        && fits_ten_digits(b3 as nat))) by {
        lemma_entry_shape(b1 as nat, b2 as nat, b3 as nat);
        if fits_ten_digits(b1 as nat) && fits_ten_digits(b2 as nat) && fits_ten_digits(b3 as nat) {
            is_ascii_chars_encode_utf8(entry@);
        }
    }
    if eb.len() != ph.len() {
        return Err(PdfSignError::DocumentTooLarge);
    }
    assert(range_entry_shape(entry@)) by {
        lemma_entry_shape(b1 as nat, b2 as nat, b3 as nat);
    }
    let tail = &pdf[len..pdf.len()];
    assert(is_first_match(tail@, ph@, 0, h)) by {
        assert(tail@ =~= update_bytes(len as nat, *n, *p));
        lemma_unsigned_prefix(original@, *n, *p);
        lemma_first_placeholder(tail@, *n);
    }
    let q = find_subsequence(tail, ph);
    assert(q == Some(h as usize));
    let at = q.unwrap() + len;
    let ghost before = pdf@;
    assert(before[b2 - 1] == 62u8) by {
        lemma_update_closing(len as nat, *n, *p);
        lemma_unsigned_prefix(original@, *n, *p);
        lemma_placeholder_shape();
        lemma_prefix_facts(*n, BYTE_RANGE_PLACEHOLDER@);
        is_ascii_chars_encode_utf8(sig_prefix(*n));
        assert(before[b2 - 1] == update_bytes(len as nat, *n, *p)[b2 - 1 - len]);
    }
    overwrite(&mut pdf, at, eb);
    assert(pdf@[b2 - 1] == before[b2 - 1]);
    proof {
        lemma_contents_after_writing(original@, *n, *p, entry@);
    }
    Ok(PreparedSignature { pdf, original_len: len, contents_start: b1, contents_end: b2 })
}

/// The bytes a signature covers: all but those from `start` to `end`.
pub open spec fn signed_range(pdf: Seq<u8>, start: int, end: int) -> Seq<u8> {
    pdf.subrange(0, start) + pdf.subrange(end, pdf.len() as int)
}

/// An upper-case hexadecimal digit.
pub open spec fn hex_digit_upper(d: nat) -> char {
    if d < 10 {
        ((d as int) + ('0' as int)) as char
    } else {
        ((d as int) - 10 + ('A' as int)) as char
    }
}

/// Each byte as two upper-case hexadecimal digits, as `format!("{b:02X}")`
/// writes it.
pub open spec fn hex_upper(bytes: Seq<u8>) -> Seq<char>
    decreases bytes.len(),
{
    if bytes.len() == 0 {
        Seq::empty()
    } else {
        hex_upper(bytes.drop_last()) + seq![
            hex_digit_upper((bytes.last() / 16) as nat),
            hex_digit_upper((bytes.last() % 16) as nat),
        ]
    }
}

/// The reserved digits once the signature `cms` is written into them:
/// its hexadecimal digits, then zeros.
pub open spec fn contents_digits(cms: Seq<u8>) -> Seq<u8> {
    encode_utf8(pad_right(hex_upper(cms), HEX_LEN as nat, '0'))
}

/// The PDF with the signature `cms` written into the reserved contents
/// whose `<` stands at `start`: from just after that `<` on.
pub open spec fn embedded_bytes(pdf: Seq<u8>, start: int, cms: Seq<u8>) -> Seq<u8> {
    splice(pdf, start + 1, contents_digits(cms))
}

proof fn lemma_hex_upper(bytes: Seq<u8>)
    ensures
        hex_upper(bytes).len() == 2 * bytes.len(),
        is_ascii_chars(hex_upper(bytes)),
    decreases bytes.len(),
{
    if bytes.len() > 0 {
        lemma_hex_upper(bytes.drop_last());
        let h = hex_upper(bytes);
        let prev = hex_upper(bytes.drop_last());
        assert forall|i: int| 0 <= i < h.len() implies '\0' <= #[trigger] h[i] <= '\u{7f}' by {
            if i < prev.len() {
                assert(h[i] == prev[i]);
            }
        }
    }
}

proof fn lemma_contents_digits(cms: Seq<u8>)
    requires
        cms.len() <= SIG_BYTES,
    ensures
        contents_digits(cms).len() == HEX_LEN,
{
    lemma_hex_upper(cms);
    let d = pad_right(hex_upper(cms), HEX_LEN as nat, '0');
    assert forall|i: int| 0 <= i < d.len() implies '\0' <= #[trigger] d[i] <= '\u{7f}' by {
        if i < hex_upper(cms).len() {
            assert(d[i] == hex_upper(cms)[i]);
        }
    }
    is_ascii_chars_encode_utf8(d);
}

fn hex_digit(d: u8) -> (c: char)
    requires
        d < 16,
    ensures
        c == hex_digit_upper(d as nat),
{
    if d < 10 {
        (48u8 + d) as char
    } else {
        (55u8 + d) as char
    }
}

/// `format!("{b:02X}")` for each byte, concatenated.
fn hex_upper_text(bytes: &[u8]) -> (r: String)
    ensures
        r@ == hex_upper(bytes@),
{
    let mut t = String::new();
    let mut i: usize = 0;
    while i < bytes.len()
        invariant
            i <= bytes@.len(),
            t@ == hex_upper(bytes@.take(i as int)),
        decreases bytes.len() - i,
    {
        let b = bytes[i];
        push_char(&mut t, hex_digit(b / 16));
        push_char(&mut t, hex_digit(b % 16));
        assert(bytes@.take(i + 1).drop_last() =~= bytes@.take(i as int));
        assert(bytes@.take(i + 1).last() == b);
        i = i + 1;
    }
    assert(bytes@.take(i as int) =~= bytes@);
    t
}

impl PreparedSignature {
    /// The bytes that the signature covers: all but the reserved contents.
    pub fn signed_bytes(&self) -> (r: Vec<u8>)
        ensures
            r@ == signed_range(self.bytes(), self.contents_start() as int, self.contents_end() as int),
    {
        proof {
            use_type_invariant(self);
        }
        let mut out = vstd::slice::slice_to_vec(&self.pdf.as_slice()[0..self.contents_start]);
        out.extend_from_slice(&self.pdf.as_slice()[self.contents_end..self.pdf.len()]);
        out
    }

    /// Writes the signature `cms` into the reserved contents, found again
    /// as the first `/Contents <` after the original bytes: its upper-case
    /// hexadecimal digits, then zeros, `HEX_LEN` characters in all, written
    /// just after that `<`. The `<` and the closing `>` stay where they are,
    /// and every byte written lies in the range that the signature leaves
    /// out.
    pub fn embed(self, cms: &[u8]) -> (r: Result<Vec<u8>, PdfSignError>)
        ensures
            cms@.len() > SIG_BYTES ==> r == Err::<Vec<u8>, PdfSignError>(
                PdfSignError::SignatureTooLarge { len: cms@.len() as usize },
            ),
            cms@.len() <= SIG_BYTES ==> (r matches Ok(out) && out@ == embedded_bytes(
                self.bytes(),
                self.contents_start() as int,
                cms@,
            ) && out@[self.contents_start() as int] == 60u8 && out@[self.contents_end() - 1] == 62u8),
    {
        proof {
            use_type_invariant(&self);
        }
        if cms.len() > SIG_BYTES {
            return Err(PdfSignError::SignatureTooLarge { len: cms.len() });
        }
        let mut hex = hex_upper_text(cms);
        proof {
            lemma_hex_upper(cms@);
            lemma_contents_digits(cms@);
        }
        push_repeated(&mut hex, '0', HEX_LEN - 2 * cms.len());
        assert(hex@ =~= pad_right(hex_upper(cms@), HEX_LEN as nat, '0'));
        let digits = hex.as_str().as_bytes();
        let found = find_contents_hex_start(self.pdf.as_slice(), self.original_len);
        assert(found == Some(self.contents_start));
        let pos = found.unwrap();
        proof {
            lemma_key_bytes();
            is_ascii_chars_encode_utf8(CONTENTS_KEY@);
            assert(self.pdf@[pos as int] == self.pdf@.subrange(pos - 10, pos + 1)[10]);
        }
        let mut pdf = self.pdf;
        overwrite(&mut pdf, pos + 1, digits);
        Ok(pdf)
    }
}

/// Embedding a signature that fits the reserved space changes neither the
/// length of the PDF nor any byte that the signature covers.
pub proof fn embedding_keeps_signed_bytes(pdf: Seq<u8>, start: int, cms: Seq<u8>)
    requires
        0 <= start,
        start + HEX_LEN + 2 <= pdf.len(),
        cms.len() <= SIG_BYTES,
    ensures
        embedded_bytes(pdf, start, cms).len() == pdf.len(),
        embedded_bytes(pdf, start, cms)[start] == pdf[start],
        embedded_bytes(pdf, start, cms)[start + HEX_LEN + 1] == pdf[start + HEX_LEN + 1],
        signed_range(embedded_bytes(pdf, start, cms), start, start + HEX_LEN + 2) == signed_range(
            pdf,
            start,
            start + HEX_LEN + 2,
        ),
{
    lemma_contents_digits(cms);
    let out = embedded_bytes(pdf, start, cms);
    let end = start + HEX_LEN + 2;
    assert(out.subrange(0, start) =~= pdf.subrange(0, start));
    assert(out.subrange(end, out.len() as int) =~= pdf.subrange(end, pdf.len() as int));
}

/// Preparing a signature keeps the original PDF as the prefix of the result,
/// and writes the byte range over the placeholder without moving any byte.
pub proof fn preparation_keeps_original(original: Seq<u8>, n: ObjectNumbers, p: SignatureUpdateParts)
    requires
        preparation_fits(original, n, p),
    ensures
        prepared_bytes(original, n, p).len() == unsigned_bytes(original, n, p).len(),
        prepared_bytes(original, n, p).subrange(0, original.len() as int) == original,
{
    let u = unsigned_bytes(original, n, p);
    let b1 = contents_start_of(original.len(), n);
    let b2 = contents_end_of(original.len(), n);
    lemma_entry_shape(b1, b2, (u.len() - b2) as nat);
    is_ascii_chars_encode_utf8(byte_range_entry(b1, b2, (u.len() - b2) as nat));
    lemma_unsigned_prefix(original, n, p);
    lemma_placeholder_shape();
    lemma_prefix_facts(n, BYTE_RANGE_PLACEHOLDER@);
    assert(prepared_bytes(original, n, p).subrange(0, original.len() as int) =~= original);
}

/// The signed PDF begins with the original one: signing only appends.
pub proof fn signing_keeps_original(
    original: Seq<u8>,
    n: ObjectNumbers,
    p: SignatureUpdateParts,
    cms: Seq<u8>,
)
    requires
        preparation_fits(original, n, p),
        cms.len() <= SIG_BYTES,
    ensures
        embedded_bytes(
            prepared_bytes(original, n, p),
            contents_start_of(original.len(), n) as int,
            cms,
        ).subrange(0, original.len() as int) == original,
{
    preparation_keeps_original(original, n, p);
    lemma_unsigned_prefix(original, n, p);
    lemma_placeholder_shape();
    lemma_prefix_facts(n, BYTE_RANGE_PLACEHOLDER@);
    lemma_contents_digits(cms);
    let pre = prepared_bytes(original, n, p);
    let out = embedded_bytes(pre, contents_start_of(original.len(), n) as int, cms);
    assert(out.subrange(0, original.len() as int) =~= pre.subrange(0, original.len() as int));
}

/// The PDF prepared for signing holds, after the original bytes, the new
/// form object whose `/Fields` lists every field of `p.fields` in order,
/// separated by single spaces: the fields the document already had, then
/// the signature field.
pub proof fn form_keeps_every_field(original: Seq<u8>, n: ObjectNumbers, p: SignatureUpdateParts)
    requires
        preparation_fits(original, n, p),
    ensures
        ({
            let form = encode_utf8(
                dec(n.acro_form as nat) + " 0 obj\n<<\n/Fields ["@ + join_seq(strings_view(p.fields@), " "@)
                    + "]\n/SigFlags 3\n>>\nendobj\n"@,
            );
            let pdf = prepared_bytes(original, n, p);
            exists|off: int|
                original.len() <= off && off + form.len() <= pdf.len() && #[trigger] pdf.subrange(
                    off,
                    off + form.len(),
                ) == form
        }),
{
    let len = original.len() as int;
    let objs = update_objects(n, p);
    let text = (dec(n.acro_form as nat) + " 0 obj\n<<\n/Fields ["@ + join_seq(strings_view(p.fields@), " "@)
        + "]\n/SigFlags 3\n>>\nendobj\n"@);
    let t = encode_utf8(text);
    assert(objs[2].0 == text);
    assert(objs[0].0 == sig_prefix(n) + sig_tail(p.signing_time@));
    let ob1 = objects_bytes(objs, 1);
    let ob2 = objects_bytes(objs, 2);
    let ob3 = objects_bytes(objs, 3);
    assert(objects_bytes(objs, 0) =~= Seq::<u8>::empty());
    assert(ob1 =~= encode_utf8(objs[0].0));
    assert(ob3 == ob2 + t);
    lemma_encode_utf8_concat(sig_prefix(n), sig_tail(p.signing_time@));
    lemma_placeholder_shape();
    lemma_prefix_facts(n, BYTE_RANGE_PLACEHOLDER@);
    is_ascii_chars_encode_utf8(sig_prefix(n));
    lemma_objects_bytes_prefix(objs, 1, 2);
    lemma_objects_bytes_prefix(objs, 3, objs.len() as int);
    let body = objects_bytes(objs, objs.len() as int);
    let upd = update_bytes(len as nat, n, p);
    assert(upd.subrange(0, body.len() as int) =~= body);
    let h = sig_head(n).len() as int;
    assert(ob2.len() >= h + 47);
    let u = unsigned_bytes(original, n, p);
    let b1 = contents_start_of(original.len(), n);
    let b2 = contents_end_of(original.len(), n);
    let e = byte_range_entry(b1, b2, (u.len() - b2) as nat);
    lemma_entry_shape(b1, b2, (u.len() - b2) as nat);
    is_ascii_chars_encode_utf8(e);
    let pre = prepared_bytes(original, n, p);
    let off = len + ob2.len();
    assert(pre.len() == u.len());
    assert forall|i: int| 0 <= i < t.len() implies pre.subrange(off, off + t.len())[i] == t[i] by {
        assert(pre[off + i] == u[off + i]);
        assert(u[off + i] == upd[ob2.len() + i]);
        assert(upd[ob2.len() + i] == body[ob2.len() + i]);
        assert(body[ob2.len() + i] == ob3[ob2.len() + i]);
    }
    assert(pre.subrange(off, off + t.len()) =~= t);
}

} // verus!
