//! Match records and the order of dataset identities.

use vstd::prelude::*;
use vstd::utf8::{decode_utf8, encode_utf8, encode_utf8_decode_utf8};

verus! {

/// One dataset found by one index: its identity and the number of sketch elements it
/// shares with the query.
#[derive(Debug, Clone, PartialEq, Eq)]
pub struct MatchRecord {
    pub dataset_id: String,
    pub intersection_size: usize,
}

/// The mathematical content of a [`MatchRecord`].
pub struct Match {
    pub id: Seq<char>,
    pub size: nat,
}

impl View for MatchRecord {
    type V = Match;

    open spec fn view(&self) -> Match {
        Match { id: self.dataset_id@, size: self.intersection_size as nat }
    }
}

/// The records of one answer, as mathematical values.
pub open spec fn matches_of(records: Seq<MatchRecord>) -> Seq<Match> {
    records.map_values(|r: MatchRecord| r@)
}

/// The answers of a whole pool, one sequence per index, as mathematical values.
pub open spec fn pool_of(answers: Seq<Vec<MatchRecord>>) -> Seq<Seq<Match>> {
    answers.map_values(|a: Vec<MatchRecord>| matches_of(a@))
}

/// `a` and `b` hold the same bytes in their first `k` positions.
pub open spec fn agree_before(a: Seq<u8>, b: Seq<u8>, k: int) -> bool {
    &&& 0 <= k <= a.len()
    &&& k <= b.len()
    &&& forall|i: int| 0 <= i < k ==> a[i] == b[i]
}

/// `a` sorts before `b`, and position `k` decides it: the two agree before `k`, and
/// there `a` ends or holds the smaller byte.
pub open spec fn decided_at(a: Seq<u8>, b: Seq<u8>, k: int) -> bool {
    &&& agree_before(a, b, k)
    &&& k < b.len()
    &&& (k == a.len() || a[k] < b[k])
}

/// Strict lexicographic order on byte strings.
pub open spec fn bytes_before(a: Seq<u8>, b: Seq<u8>) -> bool {
    exists|k: int| decided_at(a, b, k)
}

/// Strict order on dataset identities: the byte-wise lexicographic order of their UTF-8
/// encodings, which is the order of `str`.
pub open spec fn id_before(a: Seq<char>, b: Seq<char>) -> bool {
    bytes_before(encode_utf8(a), encode_utf8(b))
}

/// No byte string sorts before itself.
pub proof fn lemma_bytes_before_irreflexive(a: Seq<u8>)
    ensures
        !bytes_before(a, a),
{
}

/// Two byte strings that differ are ordered one way or the other.
pub proof fn lemma_bytes_before_connected(a: Seq<u8>, b: Seq<u8>)
    requires
        a != b,
    ensures
        bytes_before(a, b) || bytes_before(b, a),
{
    let k = first_difference(a, b, 0);
    lemma_first_difference(a, b, 0);
    if k == a.len() && k == b.len() {
        assert(a =~= b);
    } else if k == a.len() {
        assert(decided_at(a, b, k));
    } else if k == b.len() {
        assert(decided_at(b, a, k));
    } else if a[k] < b[k] {
        assert(decided_at(a, b, k));
    } else {
        assert(decided_at(b, a, k));
    }
}

/// The first position at or after `from` where `a` and `b` differ or one of them ends.
spec fn first_difference(a: Seq<u8>, b: Seq<u8>, from: int) -> int
    decreases a.len() - from,
{
    if 0 <= from < a.len() && from < b.len() && a[from] == b[from] {
        first_difference(a, b, from + 1)
    } else {
        from
    }
}

proof fn lemma_first_difference(a: Seq<u8>, b: Seq<u8>, from: int)
    requires
        agree_before(a, b, from),
    ensures
        agree_before(a, b, first_difference(a, b, from)),
        ({
            let k = first_difference(a, b, from);
            k == a.len() || k == b.len() || a[k] != b[k]
        }),
    decreases a.len() - from,
{
    if from < a.len() && from < b.len() && a[from] == b[from] {
        lemma_first_difference(a, b, from + 1);
    }
}

/// The order on byte strings is transitive.
pub proof fn lemma_bytes_before_transitive(a: Seq<u8>, b: Seq<u8>, c: Seq<u8>)
    requires
        bytes_before(a, b),
        bytes_before(b, c),
    ensures
        bytes_before(a, c),
{
    let k1 = choose|k: int| decided_at(a, b, k);
    let k2 = choose|k: int| decided_at(b, c, k);
    if k1 <= k2 {
        assert(decided_at(a, c, k1));
    } else {
        assert(decided_at(a, c, k2));
    }
}

/// No two byte strings sort before each other.
pub proof fn lemma_bytes_before_asymmetric(a: Seq<u8>, b: Seq<u8>)
    requires
        bytes_before(a, b),
    ensures
        !bytes_before(b, a),
{
    if bytes_before(b, a) {
        lemma_bytes_before_transitive(a, b, a);
        lemma_bytes_before_irreflexive(a);
    }
}

/// Identities with the same encoding are the same identity.
pub proof fn lemma_encoding_injective(a: Seq<char>, b: Seq<char>)
    requires
        encode_utf8(a) == encode_utf8(b),
    ensures
        a == b,
{
    encode_utf8_decode_utf8(a);
    encode_utf8_decode_utf8(b);
}

/// Two different identities are ordered one way or the other.
pub proof fn lemma_id_before_connected(a: Seq<char>, b: Seq<char>)
    requires
        a != b,
    ensures
        id_before(a, b) || id_before(b, a),
{
    if encode_utf8(a) == encode_utf8(b) {
        lemma_encoding_injective(a, b);
    }
    lemma_bytes_before_connected(encode_utf8(a), encode_utf8(b));
}

/// Whether identity `a` sorts strictly before identity `b`.
pub fn id_precedes(a: &str, b: &str) -> (before: bool)
    ensures
        before == id_before(a@, b@),
{
    let x = a.as_bytes();
    let y = b.as_bytes();
    let mut k: usize = 0;
    while k < x.len() && k < y.len() && x[k] == y[k]
        invariant
            agree_before(x@, y@, k as int),
        decreases x.len() - k,
    {
        k = k + 1;
    }
    let before = k < y.len() && (k == x.len() || x[k] < y[k]);
    proof {
        if before {
            assert(decided_at(x@, y@, k as int));
        }
    }
    before
}

} // verus!
