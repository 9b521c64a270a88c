//! String helpers shared by the catalog logic: equality, containment,
//! prefixes, decimal text, and the few std string functions that vstd
//! does not specify.
use vstd::prelude::*;
use vstd::string::*;
use vstd::utf8::*;

verus! {

/// The characters of the decimal notation of `n`, most significant first.
pub open spec fn decimal_text(n: nat) -> Seq<char>
    decreases n,
{
    if n < 10 {
        seq![digit_char(n)]
    } else {
        decimal_text(n / 10).push(digit_char(n % 10))
    }
}

/// The decimal digit for `d < 10`.
pub open spec fn digit_char(d: nat) -> char {
    if d == 0 {
        '0'
    } else if d == 1 {
        '1'
    } else if d == 2 {
        '2'
    } else if d == 3 {
        '3'
    } else if d == 4 {
        '4'
    } else if d == 5 {
        '5'
    } else if d == 6 {
        '6'
    } else if d == 7 {
        '7'
    } else if d == 8 {
        '8'
    } else {
        '9'
    }
}

/// What `str::to_lowercase` returns for a string (Unicode lower case mapping).
pub uninterp spec fn lowercase_text(s: Seq<char>) -> Seq<char>;

/// What `str::to_uppercase` returns for a string (Unicode upper case mapping).
pub uninterp spec fn uppercase_text(s: Seq<char>) -> Seq<char>;

/// What the `Debug` formatting of a string (`{:?}`) writes: the quoted, escaped text.
pub uninterp spec fn debug_text(s: Seq<char>) -> Seq<char>;

/// Bytes `pat` occur at byte offset `i` of `bytes`.
pub open spec fn occurs_at(bytes: Seq<u8>, pat: Seq<u8>, i: int) -> bool {
    &&& 0 <= i
    &&& i + pat.len() <= bytes.len()
    &&& bytes.subrange(i, i + pat.len()) == pat
}

/// `needle` is a sub-slice of `haystack`, as `str::contains` decides it.
pub open spec fn contains_text(haystack: &str, needle: &str) -> bool {
    exists|i: int| occurs_at(haystack.spec_bytes(), needle.spec_bytes(), i)
}

/// The characters `n` occur in the characters `h` (compared as UTF-8 bytes,
/// as `str::contains` compares them).
pub open spec fn chars_contain(h: Seq<char>, n: Seq<char>) -> bool {
    exists|i: int| occurs_at(encode_utf8(h), encode_utf8(n), i)
}

/// `prefix` is a prefix of `s`, as `str::starts_with` decides it (on the UTF-8 bytes).
pub open spec fn starts_with_text(s: &str, prefix: &str) -> bool {
    occurs_at(s.spec_bytes(), prefix.spec_bytes(), 0)
}

/// Two strings with the same bytes have the same characters.
pub proof fn lemma_same_bytes_same_chars(a: &str, b: &str)
    requires
        a.spec_bytes() == b.spec_bytes(),
    ensures
        a@ == b@,
{
    encode_utf8_decode_utf8(a@);
    encode_utf8_decode_utf8(b@);
}

/// `std::string::String::push`: appends one character.
#[verifier::external_body]
pub(crate) fn push_char(s: &mut String, c: char)
    ensures
        final(s)@ == old(s)@.push(c),
{
    s.push(c)
}

/// `str::to_lowercase`.
#[verifier::external_body]
pub(crate) fn to_lowercase(s: &str) -> (r: String)
    ensures
        r@ == lowercase_text(s@),
{
    s.to_lowercase()
}

/// `str::to_uppercase`.
#[verifier::external_body]
pub(crate) fn to_uppercase(s: &str) -> (r: String)
    ensures
        r@ == uppercase_text(s@),
{
    s.to_uppercase()
}

/// The `Debug` rendering of a string, as `format!("{:?}", s)` writes it.
#[verifier::external_body]
pub(crate) fn debug_string(s: &str) -> (r: String)
    ensures
        r@ == debug_text(s@),
{
    format!("{:?}", s)
}

/// Equality of two string slices.
pub fn str_eq(a: &str, b: &str) -> (r: bool)
    ensures
        r == (a@ == b@),
{
    let ab = a.as_bytes();
    let bb = b.as_bytes();
    if ab.len() != bb.len() {
        return false;
    }
    let mut i: usize = 0;
    while i < ab.len()
        invariant
            ab@ == a.spec_bytes(),
            bb@ == b.spec_bytes(),
            ab@.len() == bb@.len(),
            i <= ab@.len(),
            forall|j: int| 0 <= j < i ==> ab@[j] == bb@[j],
        decreases ab@.len() - i,
    {
        if ab[i] != bb[i] {
            return false;
        }
        i = i + 1;
    }
    proof {
        assert(ab@ =~= bb@);
        lemma_same_bytes_same_chars(a, b);
    }
    true
}

/// `str::starts_with` for a string prefix.
pub fn starts_with(s: &str, prefix: &str) -> (r: bool)
    ensures
        r == starts_with_text(s, prefix),
{
    let sb = s.as_bytes();
    let pb = prefix.as_bytes();
    if pb.len() > sb.len() {
        return false;
    }
    let mut i: usize = 0;
    while i < pb.len()
        invariant
            sb@ == s.spec_bytes(),
            pb@ == prefix.spec_bytes(),
            pb@.len() <= sb@.len(),
            i <= pb@.len(),
            forall|j: int| 0 <= j < i ==> sb@[j] == pb@[j],
        decreases pb@.len() - i,
    {
        if sb[i] != pb[i] {
            return false;
        }
        i = i + 1;
    }
    proof {
        assert(sb@.subrange(0, pb@.len() as int) =~= pb@);
    }
    true
}


/// Whether `needle` occurs in `haystack` at byte offset `i`.
fn occurs_at_offset(h: &[u8], n: &[u8], i: usize) -> (r: bool)
    requires
        i + n@.len() <= h@.len(),
        h@.len() <= usize::MAX,
    ensures
        r == occurs_at(h@, n@, i as int),
{
    let mut j: usize = 0;
    while j < n.len()
        invariant
            i + n@.len() <= h@.len(),
            h@.len() <= usize::MAX,
            j <= n@.len(),
            forall|k: int| 0 <= k < j ==> h@[i + k] == n@[k],
        decreases n@.len() - j,
    {
        if h[i + j] != n[j] {
            proof {
                assert(h@.subrange(i as int, i + n@.len())[j as int] != n@[j as int]);
            }
            return false;
        }
        j = j + 1;
    }
    proof {
        assert(h@.subrange(i as int, i + n@.len()) =~= n@);
    }
    true
}

/// `str::contains` for a string pattern.
pub fn contains(haystack: &str, needle: &str) -> (r: bool)
    ensures
        r == contains_text(haystack, needle),
{
    let h = haystack.as_bytes();
    let n = needle.as_bytes();
    if n.len() > h.len() {
        return false;
    }
    let last = h.len() - n.len();
    let mut i: usize = 0;
    loop
        invariant
            h@ == haystack.spec_bytes(),
            n@ == needle.spec_bytes(),
            last + n@.len() == h@.len(),
            h@.len() <= usize::MAX,
            i <= last,
            forall|k: int| 0 <= k < i ==> !occurs_at(h@, n@, k),
        decreases last - i,
    {
        if occurs_at_offset(h, n, i) {
            return true;
        }
        if i == last {
            return false;
        }
        i = i + 1;
    }
}

/// The decimal notation of an unsigned integer, as `to_string` writes it.
pub fn u64_to_decimal(n: u64) -> (r: String)
    ensures
        r@ == decimal_text(n as nat),
    decreases n,
{
    if n < 10 {
        let mut s = String::new();
        push_char(&mut s, digit_to_char(n));
        proof {
            assert(s@ =~= decimal_text(n as nat));
        }
        s
    } else {
        let mut s = u64_to_decimal(n / 10);
        push_char(&mut s, digit_to_char(n % 10));
        s
    }
}

fn digit_to_char(d: u64) -> (c: char)
    requires
        d < 10,
    ensures
        c == digit_char(d as nat),
{
    if d == 0 {
        '0'
    } else if d == 1 {
        '1'
    } else if d == 2 {
        '2'
    } else if d == 3 {
        '3'
    } else if d == 4 {
        '4'
    } else if d == 5 {
        '5'
    } else if d == 6 {
        '6'
    } else if d == 7 {
        '7'
    } else if d == 8 {
        '8'
    } else {
        '9'
    }
}


/// The pieces of `s` between the occurrences of `sep`, as `str::split`
/// with a character pattern gives them (an empty text gives one empty piece).
pub open spec fn split_text(s: Seq<char>, sep: char) -> Seq<Seq<char>>
    decreases s.len(),
{
    if s.len() == 0 {
        seq![Seq::<char>::empty()]
    } else {
        let prev = split_text(s.drop_last(), sep);
        if s.last() == sep {
            prev.push(Seq::<char>::empty())
        } else {
            prev.update(prev.len() - 1, prev.last().push(s.last()))
        }
    }
}

pub proof fn lemma_split_text_nonempty(s: Seq<char>, sep: char)
    ensures
        split_text(s, sep).len() >= 1,
        split_text(s, sep).len() <= s.len() + 1,
    decreases s.len(),
{
    if s.len() > 0 {
        lemma_split_text_nonempty(s.drop_last(), sep);
    }
}

/// Splits `s` at every `sep`.
pub fn split_by(s: &str, sep: char) -> (r: Vec<String>)
    ensures
        r@.map_values(|x: String| x@) == split_text(s@, sep),
{
    let n = s.unicode_len();
    let mut pieces: Vec<String> = Vec::new();
    let mut current = String::new();
    let mut i: usize = 0;
    proof {
        assert(s@.subrange(0, 0) =~= Seq::<char>::empty());
        assert(split_text(Seq::<char>::empty(), sep) =~= seq![Seq::<char>::empty()]);
    }
    while i < n
        invariant
            n == s@.len(),
            i <= n,
            pieces@.map_values(|x: String| x@).push(current@) == split_text(s@.subrange(0, i as int), sep),
        decreases n - i,
    {
        let c = s.get_char(i);
        let ghost prefix = s@.subrange(0, i as int);
        let ghost next = s@.subrange(0, i + 1);
        proof {
            assert(next.drop_last() =~= prefix);
            assert(next.last() == c);
        }
        let ghost old_pieces = pieces@;
        let ghost old_current = current@;
        if c == sep {
            let done = current;
            pieces.push(done);
            current = String::new();
            proof {
                assert(pieces@.map_values(|x: String| x@) =~= old_pieces.map_values(|x: String| x@).push(old_current));
                assert(pieces@.map_values(|x: String| x@).push(current@) =~= split_text(next, sep));
            }
        } else {
            push_char(&mut current, c);
            proof {
                let pv = old_pieces.map_values(|x: String| x@);
                assert(pieces@.map_values(|x: String| x@).push(current@) =~= pv.push(old_current).update(pv.len() as int, old_current.push(c)));
            }
        }
        i = i + 1;
    }
    proof {
        assert(s@.subrange(0, n as int) =~= s@);
    }
    let ghost before = pieces@;
    pieces.push(current);
    proof {
        assert(pieces@.map_values(|x: String| x@) =~= before.map_values(|x: String| x@).push(current@));
    }
    pieces
}

/// `a` comes before `b` in the lexicographic order of bytes, the order of
/// `str::cmp`.
pub open spec fn bytes_lt(a: Seq<u8>, b: Seq<u8>) -> bool
    decreases a.len(),
{
    if b.len() == 0 {
        false
    } else if a.len() == 0 {
        true
    } else if a[0] != b[0] {
        a[0] < b[0]
    } else {
        bytes_lt(a.drop_first(), b.drop_first())
    }
}

pub proof fn lemma_bytes_lt_transitive(a: Seq<u8>, b: Seq<u8>, c: Seq<u8>)
    requires
        bytes_lt(a, b),
        bytes_lt(b, c),
    ensures
        bytes_lt(a, c),
    decreases a.len(),
{
    if a.len() > 0 && b.len() > 0 && c.len() > 0 && a[0] == b[0] && b[0] == c[0] {
        lemma_bytes_lt_transitive(a.drop_first(), b.drop_first(), c.drop_first());
    }
}

pub proof fn lemma_bytes_lt_irreflexive(a: Seq<u8>)
    ensures
        !bytes_lt(a, a),
    decreases a.len(),
{
    if a.len() > 0 {
        lemma_bytes_lt_irreflexive(a.drop_first());
    }
}

pub proof fn lemma_bytes_lt_total(a: Seq<u8>, b: Seq<u8>)
    requires
        a != b,
    ensures
        bytes_lt(a, b) || bytes_lt(b, a),
    decreases a.len(),
{
    if a.len() > 0 && b.len() > 0 && a[0] == b[0] {
        assert(a.drop_first() != b.drop_first()) by {
            if a.drop_first() == b.drop_first() {
                assert(a =~= seq![a[0]] + a.drop_first());
                assert(b =~= seq![b[0]] + b.drop_first());
            }
        }
        lemma_bytes_lt_total(a.drop_first(), b.drop_first());
    } else if a.len() == 0 && b.len() == 0 {
        assert(a =~= b);
    }
}

/// `a < b` for strings: byte-wise lexicographic order.
pub fn str_lt(a: &str, b: &str) -> (r: bool)
    ensures
        r == bytes_lt(a.spec_bytes(), b.spec_bytes()),
{
    let ab = a.as_bytes();
    let bb = b.as_bytes();
    let mut i: usize = 0;
    proof {
        assert(ab@.subrange(0, ab@.len() as int) =~= ab@);
        assert(bb@.subrange(0, bb@.len() as int) =~= bb@);
    }
    while i < ab.len() && i < bb.len() && ab[i] == bb[i]
        invariant
            i <= ab@.len(),
            i <= bb@.len(),
            ab@ == a.spec_bytes(),
            bb@ == b.spec_bytes(),
            bytes_lt(ab@, bb@) == bytes_lt(ab@.subrange(i as int, ab@.len() as int), bb@.subrange(i as int, bb@.len() as int)),
        decreases ab@.len() - i,
    {
        proof {
            let sa = ab@.subrange(i as int, ab@.len() as int);
            let sb = bb@.subrange(i as int, bb@.len() as int);
            assert(sa.drop_first() =~= ab@.subrange(i + 1, ab@.len() as int));
            assert(sb.drop_first() =~= bb@.subrange(i + 1, bb@.len() as int));
        }
        i = i + 1;
    }
    if i == bb.len() {
        false
    } else if i == ab.len() {
        true
    } else {
        ab[i] < bb[i]
    }
}
} // verus!
