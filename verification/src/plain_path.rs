//! Plain relative paths: `/`-separated components, each an ordinary name or
//! `..`, the last an ordinary name. On such paths `std::path::Path` splits
//! exactly at each `/`.

use vstd::prelude::*;

verus! {

/// An ordinary path component: not empty, not `.` or `..`, and without `/`,
/// `\` or `:` (so no platform reads a separator or a prefix in it).
pub open spec fn is_plain_component(c: Seq<char>) -> bool {
    &&& c.len() > 0
    &&& c != seq!['.']
    &&& c != seq!['.', '.']
    &&& forall|i: int| 0 <= i < c.len() ==> #[trigger] c[i] != '/' && c[i] != '\\' && c[i] != ':'
}

/// The index of the last `/` in `p`.
pub open spec fn last_slash(p: Seq<char>) -> Option<int>
    decreases p.len(),
{
    if p.len() == 0 {
        None
    } else if p.last() == '/' {
        Some(p.len() - 1)
    } else {
        last_slash(p.drop_last())
    }
}

/// Where the last `/` is: the index of a `/` with none after it; and where
/// there is none, `p` has no `/` at all.
pub proof fn lemma_last_slash(p: Seq<char>)
    ensures
        last_slash(p) matches Some(k) ==> 0 <= k < p.len() && p[k] == '/' && forall|j: int|
            k < j < p.len() ==> #[trigger] p[j] != '/',
        last_slash(p) is None ==> forall|j: int| 0 <= j < p.len() ==> #[trigger] p[j] != '/',
    decreases p.len(),
{
    if p.len() > 0 && p.last() != '/' {
        lemma_last_slash(p.drop_last());
        assert forall|j: int| 0 <= j < p.len() - 1 implies #[trigger] p[j] == p.drop_last()[j] by {}
    }
}

/// A `/` at `k` with none after it is the last one.
pub proof fn lemma_last_slash_at(p: Seq<char>, k: int)
    requires
        0 <= k < p.len(),
        p[k] == '/',
        forall|j: int| k < j < p.len() ==> #[trigger] p[j] != '/',
    ensures
        last_slash(p) == Some(k),
    decreases p.len(),
{
    if k < p.len() - 1 {
        let q = p.drop_last();
        assert forall|j: int| k < j < q.len() implies #[trigger] q[j] != '/' by {
            assert(q[j] == p[j]);
        }
        lemma_last_slash_at(q, k);
    }
}

/// A component that may stand before the last one: an ordinary name or `..`.
pub open spec fn is_dir_component(c: Seq<char>) -> bool {
    is_plain_component(c) || c == seq!['.', '.']
}

/// `p` is one or more components, each an ordinary name or `..`, joined by
/// single `/`s.
pub open spec fn is_dir_path(p: Seq<char>) -> bool
    decreases p.len(),
{
    match last_slash(p) {
        None => is_dir_component(p),
        Some(k) => {
            if 0 <= k < p.len() {
                is_dir_component(p.skip(k + 1)) && is_dir_path(p.take(k))
            } else {
                false
            }
        },
    }
}

/// `p` is a plain relative path: an ordinary name, or a path of names and
/// `..` (as `is_dir_path`) followed by `/` and an ordinary name.
pub open spec fn is_plain_path(p: Seq<char>) -> bool {
    match last_slash(p) {
        None => is_plain_component(p),
        Some(k) => {
            if 0 <= k < p.len() {
                is_plain_component(p.skip(k + 1)) && is_dir_path(p.take(k))
            } else {
                false
            }
        },
    }
}

/// The final component of a plain path.
pub open spec fn plain_file_name(p: Seq<char>) -> Seq<char> {
    match last_slash(p) {
        None => p,
        Some(k) => p.skip(k + 1),
    }
}

/// A plain path without its final component (empty where it has one
/// component).
pub open spec fn plain_parent(p: Seq<char>) -> Seq<char> {
    match last_slash(p) {
        None => Seq::empty(),
        Some(k) => p.take(k),
    }
}

/// A path of names and `..` is not empty and holds no `\`.
pub proof fn lemma_dir_path_chars(p: Seq<char>)
    requires
        is_dir_path(p),
    ensures
        p.len() > 0,
        forall|j: int| 0 <= j < p.len() ==> #[trigger] p[j] != '\\',
    decreases p.len(),
{
    lemma_last_slash(p);
    match last_slash(p) {
        None => {
            if p == seq!['.', '.'] {
                assert(p[0] == '.' && p[1] == '.');
                assert forall|j: int| 0 <= j < p.len() implies #[trigger] p[j] != '\\' by {
                    assert(j == 0 || j == 1);
                }
            }
        },
        Some(k) => {
            let q = p.take(k);
            let c = p.skip(k + 1);
            lemma_dir_path_chars(q);
            assert forall|j: int| 0 <= j < p.len() implies #[trigger] p[j] != '\\' by {
                if j < k {
                    assert(p[j] == q[j]);
                } else if j > k {
                    assert(p[j] == c[j - k - 1]);
                    if c == seq!['.', '.'] {
                        assert(c[0] == '.' && c[1] == '.');
                        assert(c.len() == 2);
                        assert(c.len() == p.len() - k - 1);
                        assert(j - k - 1 == 0 || j - k - 1 == 1);
                    } else {
                        assert(c[j - k - 1] != '\\');
                    }
                }
            }
        },
    }
}

/// A plain path is not empty and holds no `\`.
pub proof fn lemma_plain_path_chars(p: Seq<char>)
    requires
        is_plain_path(p),
    ensures
        p.len() > 0,
        forall|j: int| 0 <= j < p.len() ==> #[trigger] p[j] != '\\',
{
    lemma_last_slash(p);
    match last_slash(p) {
        None => {},
        Some(k) => {
            let q = p.take(k);
            let c = p.skip(k + 1);
            lemma_dir_path_chars(q);
            assert forall|j: int| 0 <= j < p.len() implies #[trigger] p[j] != '\\' by {
                if j < k {
                    assert(p[j] == q[j]);
                } else if j > k {
                    assert(p[j] == c[j - k - 1]);
                }
            }
        },
    }
}

/// A plain path is its parent, a `/` and its final component, or just the
/// final component where the parent is empty; a non-empty parent is a path
/// of names and `..`.
pub proof fn lemma_plain_split(p: Seq<char>)
    requires
        is_plain_path(p),
    ensures
        is_plain_component(plain_file_name(p)),
        plain_parent(p).len() == 0 ==> p == plain_file_name(p),
        plain_parent(p).len() > 0 ==> p == plain_parent(p).push('/') + plain_file_name(p)
            && is_dir_path(plain_parent(p)),
        forall|j: int| 0 <= j < plain_parent(p).len() ==> #[trigger] plain_parent(p)[j] != '\\',
{
    lemma_last_slash(p);
    lemma_plain_path_chars(p);
    match last_slash(p) {
        None => {},
        Some(k) => {
            lemma_dir_path_chars(p.take(k));
            assert(p =~= p.take(k).push('/') + p.skip(k + 1));
        },
    }
}

/// What follows a `/` inside a path of names and `..` is again such a path.
pub proof fn lemma_dir_suffix(p: Seq<char>, m: int)
    requires
        is_dir_path(p),
        0 < m <= p.len(),
        p[m - 1] == '/',
    ensures
        is_dir_path(p.skip(m)),
    decreases p.len(),
{
    lemma_last_slash(p);
    if last_slash(p) is None {
        assert(p[m - 1] != '/');
    }
    let k = last_slash(p)->0;
    let c = p.skip(k + 1);
    let s = p.skip(m);
    if m - 1 == k {
        assert(s =~= c);
        lemma_last_slash(c);
        if last_slash(c) is Some {
            let j = last_slash(c)->0;
            if c == seq!['.', '.'] {
                assert(c[0] == '.' && c[1] == '.');
            }
            assert(c[j] != '/');
        }
    } else {
        assert(m - 1 < k);
        let q = p.take(k);
        assert(q[m - 1] == p[m - 1]);
        lemma_dir_suffix(q, m);
        lemma_dir_path_chars(q.skip(m));
        assert(s[k - m] == '/');
        assert forall|j: int| k - m < j < s.len() implies #[trigger] s[j] != '/' by {
            assert(s[j] == p[j + m]);
        }
        lemma_last_slash_at(s, k - m);
        assert(s.skip(k - m + 1) =~= c);
        assert(s.take(k - m) =~= q.skip(m));
    }
}

/// What follows a `/` inside a plain path is a plain path with the same
/// final component.
pub proof fn lemma_plain_suffix(p: Seq<char>, m: int)
    requires
        is_plain_path(p),
        0 < m <= p.len(),
        p[m - 1] == '/',
    ensures
        is_plain_path(p.skip(m)),
        plain_file_name(p.skip(m)) == plain_file_name(p),
{
    lemma_last_slash(p);
    if last_slash(p) is None {
        assert(p[m - 1] != '/');
    }
    let k = last_slash(p)->0;
    let c = p.skip(k + 1);
    let s = p.skip(m);
    if m - 1 == k {
        assert(s =~= c);
        lemma_last_slash(c);
        if last_slash(c) is Some {
            let j = last_slash(c)->0;
            assert(c[j] != '/');
        }
    } else {
        assert(m - 1 < k);
        let q = p.take(k);
        assert(q[m - 1] == p[m - 1]);
        lemma_dir_suffix(q, m);
        lemma_dir_path_chars(q.skip(m));
        assert(s[k - m] == '/');
        assert forall|j: int| k - m < j < s.len() implies #[trigger] s[j] != '/' by {
            assert(s[j] == p[j + m]);
        }
        lemma_last_slash_at(s, k - m);
        assert(s.skip(k - m + 1) =~= c);
        assert(s.take(k - m) =~= q.skip(m));
    }
}

} // verus!
