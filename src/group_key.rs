use vstd::prelude::*;
use vstd::string::StrSliceExecFns;

verus! {

/// True when `c` is an ASCII decimal digit.
pub open spec fn is_digit(c: char) -> bool {
    '0' <= c && c <= '9'
}

/// `p` is the position of the first `_` in `id`, and what follows it is a
/// non-empty run of decimal digits: `id` is one task of an array job.
pub open spec fn is_array_split(id: Seq<char>, p: int) -> bool {
    &&& 0 <= p
    &&& p + 1 < id.len()
    &&& id[p] == '_'
    &&& forall|i: int| 0 <= i < p ==> id[i] != '_'
    &&& forall|i: int| p < i < id.len() ==> is_digit(#[trigger] id[i])
}

/// The group key of a job identifier: the part before the first `_` when the
/// part after it is a non-empty run of digits, else the identifier itself.
pub open spec fn group_key_of(id: Seq<char>) -> Seq<char> {
    if exists|p: int| is_array_split(id, p) {
        id.subrange(0, choose|p: int| is_array_split(id, p))
    } else {
        id
    }
}

/// There is at most one split position.
pub proof fn lemma_array_split_unique(id: Seq<char>, p: int, q: int)
    requires
        is_array_split(id, p),
        is_array_split(id, q),
    ensures
        p == q,
{
    if q < p {
        assert(id[q] != '_');
    } else if p < q {
        assert(is_digit(id[q]));
    }
}

/// Computes the group key of a job identifier.
pub fn compute_group_key(id: &str) -> (key: String)
    ensures
        key@ == group_key_of(id@),
{
    let n = id.unicode_len();
    let mut pos: usize = 0;
    while pos < n && id.get_char(pos) != '_'
        invariant
            n == id@.len(),
            pos <= n,
            forall|i: int| 0 <= i < pos ==> id@[i] != '_',
        decreases n - pos,
    {
        pos = pos + 1;
    }
    if n - pos <= 1 {
        proof {
            assert forall|p: int| !is_array_split(id@, p) by {
                if is_array_split(id@, p) {
                    assert(p < pos ==> id@[p] != '_');
                }
            }
        }
        return id.to_owned();
    }
    let mut j: usize = pos + 1;
    while j < n
        invariant
            n == id@.len(),
            pos + 1 <= j <= n,
            id@[pos as int] == '_',
            forall|i: int| 0 <= i < pos ==> id@[i] != '_',
            forall|i: int| pos < i < j ==> is_digit(#[trigger] id@[i]),
        decreases n - j,
    {
        let c = id.get_char(j);
        if !('0' <= c && c <= '9') {
            proof {
                assert forall|p: int| !is_array_split(id@, p) by {
                    if is_array_split(id@, p) {
                        if p < pos {
                            assert(id@[p] != '_');
                        } else if pos < p {
                            assert(id@[pos as int] == '_');
                        } else {
                            assert(is_digit(id@[j as int]));
                        }
                    }
                }
            }
            return id.to_owned();
        }
        j = j + 1;
    }
    proof {
        assert(is_array_split(id@, pos as int));
        let q = choose|p: int| is_array_split(id@, p);
        lemma_array_split_unique(id@, pos as int, q);
    }
    id.substring_char(0, pos).to_owned()
}

} // verus!
