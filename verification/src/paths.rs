use vstd::prelude::*;

verus! {

/// The position of the last `delimiter` in `path`, or -1 where there is none.
pub open spec fn last_delimiter(path: Seq<char>, delimiter: char) -> int
    decreases path.len(),
{
    if path.len() == 0 {
        -1
    } else if path.last() == delimiter {
        path.len() - 1
    } else {
        last_delimiter(path.drop_last(), delimiter)
    }
}

/// The last delimiter, where there is one, lies inside the path and is a
/// delimiter.
pub proof fn lemma_last_delimiter(path: Seq<char>, delimiter: char)
    ensures
        -1 <= last_delimiter(path, delimiter) < path.len(),
        last_delimiter(path, delimiter) >= 0 ==> path[last_delimiter(path, delimiter)] == delimiter,
    decreases path.len(),
{
    if path.len() != 0 && path.last() != delimiter {
        lemma_last_delimiter(path.drop_last(), delimiter);
    }
}

/// A path cut into a head, one delimiter and a tail without delimiter has its
/// last delimiter right after the head.
pub proof fn lemma_split_is_last(head: Seq<char>, tail: Seq<char>, delimiter: char)
    requires
        !tail.contains(delimiter),
    ensures
        last_delimiter(head.push(delimiter) + tail, delimiter) == head.len(),
    decreases tail.len(),
{
    let path = head.push(delimiter) + tail;
    if tail.len() == 0 {
        assert(path =~= head.push(delimiter));
    } else {
        assert(path.last() == tail.last());
        assert(tail.contains(tail.last()));
        assert(path.drop_last() =~= head.push(delimiter) + tail.drop_last());
        assert forall|k: int| 0 <= k < tail.drop_last().len() implies tail.drop_last()[k]
            != delimiter by {
            assert(tail.contains(tail[k]));
        }
        lemma_split_is_last(head, tail.drop_last(), delimiter);
    }
}

/// A path without delimiter has no last delimiter.
pub proof fn lemma_no_delimiter(path: Seq<char>, delimiter: char)
    requires
        !path.contains(delimiter),
    ensures
        last_delimiter(path, delimiter) == -1,
    decreases path.len(),
{
    if path.len() != 0 {
        assert(path.contains(path.last()));
        assert forall|k: int| 0 <= k < path.drop_last().len() implies path.drop_last()[k]
            != delimiter by {
            assert(path.contains(path[k]));
        }
        lemma_no_delimiter(path.drop_last(), delimiter);
    }
}

/// `str::rsplit_once` with a `char` as its pattern. Trusted, as std documents
/// it: where `delimiter` occurs, the text before its last occurrence and the
/// text after it, which then holds no delimiter; otherwise nothing.
#[verifier::external_body]
pub(crate) fn rsplit_once(path: &str, delimiter: char) -> (parts: Option<(&str, &str)>)
    ensures
        match parts {
            Some((head, tail)) => path@ == head@.push(delimiter) + tail@ && !tail@.contains(
                delimiter,
            ),
            None => !path@.contains(delimiter),
        },
{
    path.rsplit_once(delimiter)
}

/// The part of `path` before its last `delimiter`, where there is one.
pub fn parent_path(path: &str, delimiter: char) -> (parent: Option<&str>)
    ensures
        match parent {
            Some(head) => last_delimiter(path@, delimiter) >= 0 && head@ == path@.take(
                last_delimiter(path@, delimiter),
            ),
            None => last_delimiter(path@, delimiter) == -1,
        },
{
    match rsplit_once(path, delimiter) {
        Some((head, tail)) => {
            proof {
                lemma_split_is_last(head@, tail@, delimiter);
                assert(path@.take(head@.len() as int) =~= head@);
            }
            Some(head)
        },
        None => {
            proof {
                lemma_no_delimiter(path@, delimiter);
            }
            None
        },
    }
}

} // verus!
