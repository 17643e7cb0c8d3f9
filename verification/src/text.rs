//! Character and UTF-8 helpers shared by every parsing module.
//!
//! Every tool of this crate is specified over the character sequence `st@` of the
//! string it parses, and reports a match as the number of *bytes* of the matched
//! prefix, as `str` indexing requires. The functions here bridge the two views.
use vstd::prelude::*;
use vstd::utf8::*;
use vstd::std_specs::iter::IteratorSpec;

verus! {

broadcast use {vstd::string::group_string_axioms, vstd::utf8::group_utf8_lib};

/// Number of bytes in the UTF-8 encoding of `s`.
pub open spec fn utf8_len(s: Seq<char>) -> nat {
    encode_utf8(s).len()
}

/// Number of bytes of the first `k` characters of `s`.
pub open spec fn prefix_len(s: Seq<char>, k: nat) -> nat {
    utf8_len(s.take(k as int))
}

/// UTF-8 encoding distributes over concatenation.
pub proof fn lemma_encode_concat(a: Seq<char>, b: Seq<char>)
    ensures
        encode_utf8(a + b) == encode_utf8(a) + encode_utf8(b),
    decreases a.len(),
{
    if a.len() == 0 {
        assert(a + b =~= b);
        assert(encode_utf8(a) =~= seq![]);
        assert(encode_utf8(a) + encode_utf8(b) =~= encode_utf8(b));
    } else {
        lemma_encode_concat(a.drop_first(), b);
        assert((a + b).drop_first() =~= a.drop_first() + b);
        assert((a + b)[0] == a[0]);
        assert(encode_utf8(a + b) =~= encode_scalar(a[0] as u32) + encode_utf8(a.drop_first() + b));
    }
}

/// The encoded length of a concatenation is the sum of the encoded lengths.
pub proof fn lemma_utf8_len_concat(a: Seq<char>, b: Seq<char>)
    ensures
        utf8_len(a + b) == utf8_len(a) + utf8_len(b),
{
    lemma_encode_concat(a, b);
}

/// Splitting a prefix of `k1 + k2` characters into a prefix of `k1` characters followed by
/// `k2` more characters.
pub proof fn lemma_prefix_len_add(s: Seq<char>, k1: nat, k2: nat)
    requires
        k1 + k2 <= s.len(),
    ensures
        prefix_len(s, k1 + k2) == prefix_len(s, k1) + prefix_len(s.skip(k1 as int), k2),
{
    assert(s.take((k1 + k2) as int) =~= s.take(k1 as int) + s.skip(k1 as int).take(k2 as int));
    lemma_utf8_len_concat(s.take(k1 as int), s.skip(k1 as int).take(k2 as int));
}

/// A prefix is never longer, in bytes, than the whole sequence.
pub proof fn lemma_prefix_len_bound(s: Seq<char>, k: nat)
    requires
        k <= s.len(),
    ensures
        prefix_len(s, k) <= utf8_len(s),
{
    assert(s =~= s.take(k as int) + s.skip(k as int));
    lemma_utf8_len_concat(s.take(k as int), s.skip(k as int));
}

/// The encoded length of a single character.
pub proof fn lemma_utf8_len_single(c: char)
    ensures
        utf8_len(seq![c]) == encode_scalar(c as u32).len(),
        1 <= utf8_len(seq![c]) <= 4,
{
    assert(seq![c].drop_first() =~= Seq::<char>::empty());
    assert(encode_utf8(seq![c]) =~= encode_scalar(c as u32) + encode_utf8(Seq::<char>::empty()));
    vstd::utf8::char_is_scalar(c);
}

/// The bytes of the first character are the bytes of the one-character prefix.
pub proof fn lemma_prefix_len_one(s: Seq<char>)
    requires
        s.len() > 0,
    ensures
        prefix_len(s, 1) == utf8_len(seq![s[0]]),
{
    assert(s.take(1) =~= seq![s[0]]);
}

/// A nonempty prefix has at least one byte.
pub proof fn lemma_prefix_len_positive(s: Seq<char>, k: nat)
    requires
        0 < k <= s.len(),
    ensures
        prefix_len(s, k) > 0,
{
    lemma_prefix_len_add(s, 1, (k - 1) as nat);
    lemma_prefix_len_one(s);
    lemma_utf8_len_single(s[0]);
}

/// Skipping `a` then `b` characters skips `a + b` characters.
pub proof fn lemma_skip_skip(s: Seq<char>, a: nat, b: nat)
    requires
        a + b <= s.len(),
    ensures
        s.skip(a as int).skip(b as int) == s.skip((a + b) as int),
{
    assert(s.skip(a as int).skip(b as int) =~= s.skip((a + b) as int));
}

/// Every empty prefix has no bytes.
pub proof fn lemma_prefix_len_zero(s: Seq<char>)
    ensures
        prefix_len(s, 0) == 0,
{
    assert(s.take(0) =~= Seq::<char>::empty());
}

/// The end of an encoded prefix is a character boundary of the whole encoding.
proof fn lemma_boundary(x: Seq<char>, y: Seq<char>)
    ensures
        is_char_boundary(encode_utf8(x + y), encode_utf8(x).len() as int),
    decreases x.len(),
{
    let z = x + y;
    encode_utf8_valid_utf8(z);
    if x.len() == 0 {
    } else {
        let bytes = encode_utf8(z);
        encode_utf8_first_scalar(z);
        assert(pop_first_scalar(bytes) =~= encode_utf8(z.drop_first()));
        assert(z.drop_first() =~= x.drop_first() + y);
        assert(z[0] == x[0]);
        assert(encode_utf8(x) =~= encode_scalar(x[0] as u32) + encode_utf8(x.drop_first()));
        lemma_boundary(x.drop_first(), y);
        encode_utf8_valid_utf8(x.drop_first() + y);
    }
}

/// Equal encodings come from equal character sequences.
pub proof fn lemma_encode_injective(a: Seq<char>, b: Seq<char>)
    requires
        encode_utf8(a) == encode_utf8(b),
    ensures
        a == b,
{
    encode_utf8_decode_utf8(a);
    encode_utf8_decode_utf8(b);
}

/// The end of a prefix of `k` characters is a character boundary of the encoding of `s`.
pub proof fn lemma_prefix_boundary(s: Seq<char>, k: nat)
    requires
        k <= s.len(),
    ensures
        is_char_boundary(encode_utf8(s), prefix_len(s, k) as int),
        encode_utf8(s).take(prefix_len(s, k) as int) == encode_utf8(s.take(k as int)),
        encode_utf8(s).skip(prefix_len(s, k) as int) == encode_utf8(s.skip(k as int)),
{
    let x = s.take(k as int);
    let y = s.skip(k as int);
    assert(s =~= x + y);
    lemma_boundary(x, y);
    lemma_encode_concat(x, y);
    assert(encode_utf8(s).take(prefix_len(s, k) as int) =~= encode_utf8(x));
    assert(encode_utf8(s).skip(prefix_len(s, k) as int) =~= encode_utf8(y));
}

/// Strings whose encodings are the two parts of the encoding of `s` split after `k` characters
/// hold those characters and the rest.
pub proof fn lemma_split_views(s: Seq<char>, k: nat, a: Seq<char>, b: Seq<char>)
    requires
        k <= s.len(),
        encode_utf8(a) == encode_utf8(s).take(prefix_len(s, k) as int),
        encode_utf8(b) == encode_utf8(s).skip(prefix_len(s, k) as int),
    ensures
        a == s.take(k as int),
        b == s.skip(k as int),
{
    lemma_prefix_boundary(s, k);
    lemma_encode_injective(a, s.take(k as int));
    lemma_encode_injective(b, s.skip(k as int));
}

/// Returns the first character of `st`, if any.
pub fn first_char(st: &str) -> (r: Option<char>)
    ensures
        r == (if st@.len() > 0 { Some(st@[0]) } else { None::<char> }),
{
    let mut it = st.chars();
    it.next()
}

/// Number of bytes of the UTF-8 encoding of `c`.
pub fn char_len(c: char) -> (n: usize)
    ensures
        n == utf8_len(seq![c]),
        1 <= n <= 4,
{
    proof {
        lemma_utf8_len_single(c);
        vstd::utf8::char_is_scalar(c);
    }
    let v: u32 = c as u32;
    if v < 0x80 {
        1
    } else if v < 0x800 {
        2
    } else if v < 0x10000 {
        3
    } else {
        4
    }
}

/// Length in bytes of `st`.
pub fn byte_len(st: &str) -> (n: usize)
    ensures
        n == utf8_len(st@),
{
    st.as_bytes().len()
}

/// Splits `st` after its first `k` characters, whose encoding takes `nbytes` bytes.
pub fn split_chars<'a>(st: &'a str, nbytes: usize, Ghost(k): Ghost<nat>) -> (r: (&'a str, &'a str))
    requires
        k <= st@.len(),
        nbytes == prefix_len(st@, k),
    ensures
        r.0@ == st@.take(k as int),
        r.1@ == st@.skip(k as int),
{
    let ghost s = st@;
    let ghost x = s.take(k as int);
    let ghost y = s.skip(k as int);
    proof {
        assert(s =~= x + y);
        lemma_boundary(x, y);
        lemma_encode_concat(x, y);
    }
    let (a, b) = st.split_at(nbytes);
    proof {
        let bytes = encode_utf8(s);
        assert(bytes.subrange(0, nbytes as int) =~= encode_utf8(x));
        assert(bytes.subrange(nbytes as int, bytes.len() as int) =~= encode_utf8(y));
        lemma_encode_injective(a@, x);
        lemma_encode_injective(b@, y);
    }
    (a, b)
}

/// The suffix of `st` after its first `k` characters, whose encoding takes `nbytes` bytes.
pub fn skip_chars<'a>(st: &'a str, nbytes: usize, Ghost(k): Ghost<nat>) -> (r: &'a str)
    requires
        k <= st@.len(),
        nbytes == prefix_len(st@, k),
    ensures
        r@ == st@.skip(k as int),
{
    split_chars(st, nbytes, Ghost(k)).1
}

/// The prefix of `st` made of its first `k` characters, whose encoding takes `nbytes` bytes.
pub fn take_chars<'a>(st: &'a str, nbytes: usize, Ghost(k): Ghost<nat>) -> (r: &'a str)
    requires
        k <= st@.len(),
        nbytes == prefix_len(st@, k),
    ensures
        r@ == st@.take(k as int),
{
    split_chars(st, nbytes, Ghost(k)).0
}

/// Tests whether `st` begins with `pfx`, comparing their characters one by one.
pub fn starts_with(st: &str, pfx: &str) -> (b: bool)
    ensures
        b == (pfx@.len() <= st@.len() && st@.take(pfx@.len() as int) == pfx@),
{
    let mut a = st.chars();
    let mut p = pfx.chars();
    let ghost mut i: int = 0;
    proof {
        assert(st@.skip(0) =~= st@);
        assert(pfx@.skip(0) =~= pfx@);
        assert(st@.take(0) =~= pfx@.take(0));
    }
    loop
        invariant
            0 <= i <= pfx@.len(),
            i <= st@.len(),
            a.remaining() == st@.skip(i),
            p.remaining() == pfx@.skip(i),
            st@.take(i) == pfx@.take(i),
        decreases pfx@.len() - i,
    {
        match p.next() {
            None => {
                proof {
                    assert(pfx@.take(i) =~= pfx@);
                }
                return true;
            },
            Some(c) => {
                match a.next() {
                    None => {
                        return false;
                    },
                    Some(d) => {
                        if c != d {
                            proof {
                                assert(pfx@[i] == c && st@[i] == d);
                                if pfx@.len() <= st@.len() && st@.take(pfx@.len() as int) == pfx@ {
                                    assert(st@.take(pfx@.len() as int)[i] == st@[i]);
                                }
                            }
                            return false;
                        }
                        proof {
                            assert(st@.take(i + 1) =~= st@.take(i).push(d));
                            assert(pfx@.take(i + 1) =~= pfx@.take(i).push(c));
                            assert(st@.skip(i).drop_first() =~= st@.skip(i + 1));
                            assert(pfx@.skip(i).drop_first() =~= pfx@.skip(i + 1));
                            i = i + 1;
                        }
                    },
                }
            },
        }
    }
}

} // verus!
