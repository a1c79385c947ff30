//! Text helpers: equality and a total order on strings.

use vstd::prelude::*;
use vstd::string::*;
use vstd::utf8::*;

verus! {

/// The texts of a list of strings.
pub open spec fn texts(strings: Seq<String>) -> Seq<Seq<char>> {
    strings.map_values(|s: String| s@)
}

/// How one text stands to another in the byte-wise lexicographic order.
#[derive(Clone, Copy, Debug, PartialEq, Eq, Structural)]
pub enum TextOrder {
    Before,
    Same,
    After,
}

/// `a` and `b` agree on their first `k` bytes.
pub open spec fn agree_until(a: Seq<u8>, b: Seq<u8>, k: int) -> bool {
    &&& 0 <= k <= a.len()
    &&& k <= b.len()
    &&& forall|i: int| 0 <= i < k ==> a[i] == b[i]
}

/// `a` sorts before `b`, decided at byte `k`: the two agree before `k`, and
/// there `a` ends or holds the smaller byte.
pub open spec fn before_at(a: Seq<u8>, b: Seq<u8>, k: int) -> bool {
    &&& agree_until(a, b, k)
    &&& k < b.len()
    &&& (k == a.len() || a[k] < b[k])
}

/// Strict lexicographic order on byte sequences.
pub open spec fn bytes_before(a: Seq<u8>, b: Seq<u8>) -> bool {
    exists|k: int| before_at(a, b, k)
}

/// Strict order on texts: lexicographic on their UTF-8 encodings.
pub open spec fn text_before(a: Seq<char>, b: Seq<char>) -> bool {
    bytes_before(encode_utf8(a), encode_utf8(b))
}

pub proof fn lemma_bytes_before_asymmetric(a: Seq<u8>, b: Seq<u8>)
    ensures
        !(bytes_before(a, b) && bytes_before(b, a)),
        !bytes_before(a, a),
{
    if bytes_before(a, b) && bytes_before(b, a) {
        let k1 = choose|k: int| before_at(a, b, k);
        let k2 = choose|k: int| before_at(b, a, k);
        assert(false);
    }
    if bytes_before(a, a) {
        let k = choose|k: int| before_at(a, a, k);
        assert(false);
    }
}

pub proof fn lemma_bytes_before_transitive(a: Seq<u8>, b: Seq<u8>, c: Seq<u8>)
    requires
        bytes_before(a, b),
        bytes_before(b, c),
    ensures
        bytes_before(a, c),
{
    let k1 = choose|k: int| before_at(a, b, k);
    let k2 = choose|k: int| before_at(b, c, k);
    let k = if k1 <= k2 { k1 } else { k2 };
    assert(before_at(a, c, k));
}

/// Equal encodings come from equal texts.
pub proof fn lemma_encoding_injective(a: Seq<char>, b: Seq<char>)
    requires
        encode_utf8(a) == encode_utf8(b),
    ensures
        a == b,
{
    encode_utf8_decode_utf8(a);
    encode_utf8_decode_utf8(b);
}

/// Compares two strings byte by byte.
pub fn order_of(a: &str, b: &str) -> (r: TextOrder)
    ensures
        r == TextOrder::Before <==> text_before(a@, b@),
        r == TextOrder::Same <==> a@ == b@,
        r == TextOrder::After <==> text_before(b@, a@),
{
    let x = a.as_bytes();
    let y = b.as_bytes();
    let mut i: usize = 0;
    while i < x.len() && i < y.len() && x[i] == y[i]
        invariant
            agree_until(x@, y@, i as int),
        decreases x.len() - i,
    {
        i = i + 1;
    }
    proof {
        lemma_bytes_before_asymmetric(x@, y@);
        lemma_bytes_before_asymmetric(y@, x@);
        if a@ == b@ {
            assert(x@ == y@);
        }
    }
    if i == x.len() && i == y.len() {
        proof {
            assert(x@ =~= y@);
            lemma_encoding_injective(a@, b@);
        }
        TextOrder::Same
    } else if i == x.len() || (i < y.len() && x[i] < y[i]) {
        proof {
            assert(before_at(x@, y@, i as int));
        }
        TextOrder::Before
    } else {
        proof {
            assert(agree_until(y@, x@, i as int));
            assert(before_at(y@, x@, i as int));
        }
        TextOrder::After
    }
}

/// Whether two strings hold the same text.
pub fn same_text(a: &str, b: &str) -> (r: bool)
    ensures
        r == (a@ == b@),
{
    order_of(a, b) == TextOrder::Same
}

/// The characters of a string, in order.
pub fn chars_of(s: &str) -> (v: Vec<char>)
    ensures
        v@ == s@,
{
    let mut v: Vec<char> = Vec::new();
    for c in it: s.chars()
        invariant
            v@ == it.seq().take(it.index() as int),
            it.seq() == s@,
    {
        v.push(c);
    }
    v
}

/// Whether a list of strings holds a text.
pub fn holds_text(list: &Vec<String>, wanted: &str) -> (found: bool)
    ensures
        found == texts(list@).contains(wanted@),
{
    let mut i: usize = 0;
    while i < list.len()
        invariant
            i <= list@.len(),
            forall|j: int| 0 <= j < i ==> list@[j]@ != wanted@,
        decreases list@.len() - i,
    {
        if same_text(list[i].as_str(), wanted) {
            assert(texts(list@)[i as int] == wanted@);
            return true;
        }
        i = i + 1;
    }
    proof {
        if texts(list@).contains(wanted@) {
            let j = choose|j: int| 0 <= j < texts(list@).len() && texts(list@)[j] == wanted@;
            assert(list@[j]@ == wanted@);
        }
    }
    false
}

} // verus!
