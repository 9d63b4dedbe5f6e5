//! Byte-wise ordering and equality of strings.

use vstd::prelude::*;
use vstd::utf8::*;

verus! {

/// The texts of a sequence of strings.
pub open spec fn texts(v: Seq<String>) -> Seq<Seq<char>> {
    v.map_values(|s: String| s@)
}

/// Lexicographic "less than or equal" on byte sequences.
pub open spec fn lex_le(a: Seq<u8>, b: Seq<u8>) -> bool
    decreases a.len(),
{
    if a.len() == 0 {
        true
    } else if b.len() == 0 {
        false
    } else if a[0] != b[0] {
        a[0] < b[0]
    } else {
        lex_le(a.skip(1), b.skip(1))
    }
}

/// The order of two strings: that of their UTF-8 bytes.
pub open spec fn key_le(a: Seq<char>, b: Seq<char>) -> bool {
    lex_le(encode_utf8(a), encode_utf8(b))
}

/// Every byte sequence comes before or with itself.
pub proof fn lemma_lex_le_reflexive(a: Seq<u8>)
    ensures
        lex_le(a, a),
    decreases a.len(),
{
    if a.len() > 0 {
        lemma_lex_le_reflexive(a.skip(1));
    }
}

/// Of two byte sequences, one comes before or with the other.
pub proof fn lemma_lex_le_total(a: Seq<u8>, b: Seq<u8>)
    ensures
        lex_le(a, b) || lex_le(b, a),
    decreases a.len(),
{
    if a.len() > 0 && b.len() > 0 && a[0] == b[0] {
        lemma_lex_le_total(a.skip(1), b.skip(1));
    }
}

/// What comes before or with a second sequence comes before or with every
/// sequence that the second comes before or with.
pub proof fn lemma_lex_le_transitive(a: Seq<u8>, b: Seq<u8>, c: Seq<u8>)
    requires
        lex_le(a, b),
        lex_le(b, c),
    ensures
        lex_le(a, c),
    decreases a.len(),
{
    if a.len() > 0 && b.len() > 0 && c.len() > 0 && a[0] == b[0] && b[0] == c[0] {
        lemma_lex_le_transitive(a.skip(1), b.skip(1), c.skip(1));
    }
}

/// Two byte sequences of which each comes before or with the other are the
/// same sequence.
pub proof fn lemma_lex_le_antisymmetric(a: Seq<u8>, b: Seq<u8>)
    requires
        lex_le(a, b),
        lex_le(b, a),
    ensures
        a == b,
    decreases a.len(),
{
    if a.len() > 0 && b.len() > 0 {
        lemma_lex_le_antisymmetric(a.skip(1), b.skip(1));
        assert(a =~= seq![a[0]] + a.skip(1));
        assert(b =~= seq![b[0]] + b.skip(1));
    } else {
        assert(a =~= b);
    }
}

/// Two strings with the same UTF-8 bytes are the same string.
pub proof fn lemma_encode_utf8_injective(a: Seq<char>, b: Seq<char>)
    requires
        encode_utf8(a) == encode_utf8(b),
    ensures
        a == b,
{
    encode_utf8_decode_utf8(a);
    encode_utf8_decode_utf8(b);
}

/// Whether `a` comes before or with `b` in byte order.
pub fn str_le(a: &str, b: &str) -> (r: bool)
    ensures
        r == key_le(a@, b@),
{
    let x = a.as_bytes();
    let y = b.as_bytes();
    let mut i: usize = 0;
    proof {
        assert(x@.skip(0) =~= x@);
        assert(y@.skip(0) =~= y@);
    }
    while i < x.len() && i < y.len()
        invariant
            i <= x.len(),
            i <= y.len(),
            x@ == encode_utf8(a@),
            y@ == encode_utf8(b@),
            lex_le(x@, y@) == lex_le(x@.skip(i as int), y@.skip(i as int)),
        decreases x.len() - i,
    {
        proof {
            assert(x@.skip(i as int).skip(1) =~= x@.skip(i + 1));
            assert(y@.skip(i as int).skip(1) =~= y@.skip(i + 1));
            assert(x@.skip(i as int)[0] == x@[i as int]);
            assert(y@.skip(i as int)[0] == y@[i as int]);
        }
        if x[i] != y[i] {
            return x[i] < y[i];
        }
        i += 1;
    }
    i == x.len()
}

/// Whether two strings are the same text.
pub fn str_eq(a: &str, b: &str) -> (r: bool)
    ensures
        r == (a@ == b@),
{
    let r = str_le(a, b) && str_le(b, a);
    proof {
        if r {
            lemma_lex_le_antisymmetric(encode_utf8(a@), encode_utf8(b@));
            lemma_encode_utf8_injective(a@, b@);
        } else {
            lemma_lex_le_reflexive(encode_utf8(a@));
        }
    }
    r
}

/// Whether each text comes strictly before the next in byte order, so that
/// none occurs twice.
pub open spec fn strictly_ascending(keys: Seq<Seq<char>>) -> bool {
    forall|i: int, j: int|
        0 <= i < j < keys.len() ==> !key_le(#[trigger] keys[j], #[trigger] keys[i])
}

/// Two strictly ascending lists of the same texts agree on their common
/// positions.
proof fn lemma_ascending_agree(a: Seq<Seq<char>>, b: Seq<Seq<char>>, i: int)
    requires
        strictly_ascending(a),
        strictly_ascending(b),
        forall|k: Seq<char>| a.contains(k) <==> b.contains(k),
        0 <= i < a.len(),
        i < b.len(),
    ensures
        a[i] == b[i],
    decreases i,
{
    assert forall|k: int| 0 <= k < i implies a[k] == b[k] by {
        lemma_ascending_agree(a, b, k);
    }
    let x = a[i];
    let y = b[i];
    if x != y {
        lemma_lex_le_reflexive(encode_utf8(x));
        lemma_lex_le_reflexive(encode_utf8(y));
        assert(a.contains(x));
        let j = choose|j: int| 0 <= j < b.len() && b[j] == x;
        if j < i {
            assert(a[j] == x);
            assert(!key_le(a[i], a[j]));
        }
        assert(!key_le(b[j], b[i]));
        assert(b.contains(y));
        let k = choose|k: int| 0 <= k < a.len() && a[k] == y;
        if k < i {
            assert(b[k] == y);
            assert(!key_le(b[i], b[k]));
        }
        assert(!key_le(a[k], a[i]));
        lemma_lex_le_total(encode_utf8(x), encode_utf8(y));
    }
}

/// A set of texts has one strictly ascending list.
pub proof fn lemma_ascending_unique(a: Seq<Seq<char>>, b: Seq<Seq<char>>)
    requires
        strictly_ascending(a),
        strictly_ascending(b),
        forall|k: Seq<char>| a.contains(k) <==> b.contains(k),
    ensures
        a == b,
{
    assert forall|i: int| 0 <= i < a.len() && i < b.len() implies a[i] == b[i] by {
        lemma_ascending_agree(a, b, i);
    }
    if a.len() > b.len() {
        let x = a[b.len() as int];
        lemma_lex_le_reflexive(encode_utf8(x));
        assert(a.contains(x));
        let j = choose|j: int| 0 <= j < b.len() && b[j] == x;
        assert(a[j] == x);
        assert(!key_le(a[b.len() as int], a[j]));
    }
    if b.len() > a.len() {
        let x = b[a.len() as int];
        lemma_lex_le_reflexive(encode_utf8(x));
        assert(b.contains(x));
        let j = choose|j: int| 0 <= j < a.len() && a[j] == x;
        assert(b[j] == x);
        assert(!key_le(b[a.len() as int], b[j]));
    }
    assert(a =~= b);
}

/// Puts `key` into a list of distinct texts that is kept in ascending byte
/// order. A text that the list already holds is not added again.
pub fn insert_key(keys: &mut Vec<String>, key: &str)
    requires
        strictly_ascending(texts(old(keys)@)),
    ensures
        strictly_ascending(texts(final(keys)@)),
        forall|k: Seq<char>|
            texts(final(keys)@).contains(k) <==> (texts(old(keys)@).contains(k) || k == key@),
{
    let ghost before = texts(keys@);
    let mut pos: usize = keys.len();
    while pos > 0 && !str_le(keys[pos - 1].as_str(), key)
        invariant
            pos <= keys.len(),
            forall|i: int| pos <= i < keys.len() ==> !key_le((#[trigger] keys[i])@, key@),
        decreases pos,
    {
        pos -= 1;
    }
    if pos > 0 && str_eq(keys[pos - 1].as_str(), key) {
        proof {
            assert(before[pos - 1] == key@);
            assert(before.contains(key@));
        }
        return ;
    }
    keys.insert(pos, key.to_owned());
    proof {
        let after = texts(keys@);
        assert(after =~= before.insert(pos as int, key@));
        assert forall|i: int, j: int| 0 <= i < j < after.len() implies !key_le(
            #[trigger] after[j],
            #[trigger] after[i],
        ) by {
            if j == pos {
                // before[i] <= before[pos - 1] < key
                let last = before[pos - 1];
                assert(key_le(last, key@));
                if key_le(key@, last) {
                    lemma_lex_le_antisymmetric(encode_utf8(key@), encode_utf8(last));
                    lemma_encode_utf8_injective(key@, last);
                }
                if i < pos - 1 {
                    assert(!key_le(last, before[i]));
                    if key_le(key@, before[i]) {
                        lemma_lex_le_transitive(
                            encode_utf8(last),
                            encode_utf8(key@),
                            encode_utf8(before[i]),
                        );
                    }
                }
            } else if i == pos {
                assert(after[j] == before[j - 1]);
                assert(before[j - 1] == keys@[j]@);
            } else {
                let a = if i < pos { i } else { i - 1 };
                let b = if j < pos { j } else { j - 1 };
                assert(after[i] == before[a]);
                assert(after[j] == before[b]);
            }
        }
        assert forall|k: Seq<char>| after.contains(k) <==> (before.contains(k) || k == key@) by {
            if after.contains(k) {
                let i = choose|i: int| 0 <= i < after.len() && after[i] == k;
                if i < pos {
                    assert(before[i] == k);
                } else if i > pos {
                    assert(before[i - 1] == k);
                }
            }
            if before.contains(k) {
                let i = choose|i: int| 0 <= i < before.len() && before[i] == k;
                if i < pos {
                    assert(after[i] == k);
                } else {
                    assert(after[i + 1] == k);
                }
            }
            if k == key@ {
                assert(after[pos as int] == k);
            }
        }
    }
}

} // verus!
