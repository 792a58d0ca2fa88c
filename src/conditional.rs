//! The conditional-request rules: validators taken from stored state decide
//! whether a read is answered in full and whether a write may go ahead.
use vstd::prelude::*;

verus! {

/// A resource's validators: its strong entity tag, when it has one, and the
/// time it was last modified, in whole seconds since the Unix epoch.
#[derive(Debug, Clone, PartialEq, Eq)]
pub struct Validators {
    pub etag: Option<String>,
    pub last_modified: Option<u64>,
}

/// The preconditions of a request. Entity tags are the header values as
/// sent; dates are in whole seconds since the Unix epoch.
#[derive(Debug, Clone, PartialEq, Eq, Default)]
pub struct Preconditions {
    pub if_match: Option<Vec<String>>,
    pub if_none_match: Option<Vec<String>>,
    pub if_modified_since: Option<u64>,
    pub if_unmodified_since: Option<u64>,
}

/// The view of a resource's entity tag.
pub open spec fn etag_view(v: Validators) -> Option<Seq<char>> {
    match v.etag {
        Some(t) => Some(t@),
        None => None,
    }
}

/// `s` without the double quotes at either end.
pub open spec fn trim_quotes(s: Seq<char>) -> Seq<char>
    decreases s.len(),
{
    if s.len() == 0 {
        s
    } else if s[0] == '"' {
        trim_quotes(s.drop_first())
    } else if s.last() == '"' {
        trim_quotes(s.drop_last())
    } else {
        s
    }
}

/// Some header value, its quotes stripped, equals `tag`.
pub open spec fn any_tag_matches(tag: Seq<char>, values: Seq<String>) -> bool {
    exists|k: int| 0 <= k < values.len() && trim_quotes(#[trigger] values[k]@) == tag
}

/// A read of a resource with these validators is answered "not modified":
/// `If-None-Match` decides when it applies, else `If-Modified-Since` does.
pub open spec fn read_not_modified(
    etag: Option<Seq<char>>,
    last_modified: Option<u64>,
    p: Preconditions,
) -> bool {
    match (p.if_none_match, etag) {
        (Some(values), Some(tag)) => any_tag_matches(tag, values@),
        _ => match (p.if_modified_since, last_modified) {
            (Some(since), Some(modified)) => modified <= since,
            _ => false,
        },
    }
}

/// A write to an existing resource with these validators fails its
/// preconditions: no `If-Match` value matches, or it was modified after the
/// `If-Unmodified-Since` date.
pub open spec fn write_precondition_failed(
    etag: Option<Seq<char>>,
    last_modified: Option<u64>,
    p: Preconditions,
) -> bool {
    (match (p.if_match, etag) {
        (Some(values), Some(tag)) => !any_tag_matches(tag, values@),
        _ => false,
    }) || (match (p.if_unmodified_since, last_modified) {
        (Some(since), Some(modified)) => modified > since,
        _ => false,
    })
}

proof fn lemma_trim_skip_leading(s: Seq<char>, i: int)
    requires
        0 <= i <= s.len(),
        forall|k: int| 0 <= k < i ==> s[k] == '"',
    ensures
        trim_quotes(s) == trim_quotes(s.subrange(i, s.len() as int)),
    decreases i,
{
    if i > 0 {
        assert(s.drop_first().subrange(i - 1, s.drop_first().len() as int) =~= s.subrange(i, s.len() as int));
        lemma_trim_skip_leading(s.drop_first(), i - 1);
    } else {
        assert(s.subrange(0, s.len() as int) =~= s);
    }
}

proof fn lemma_trim_skip_trailing(s: Seq<char>, j: int)
    requires
        0 <= j <= s.len(),
        s.len() == 0 || s[0] != '"' || j == s.len(),
        forall|k: int| j <= k < s.len() ==> s[k] == '"',
        j > 0 || s.len() == 0,
    ensures
        trim_quotes(s) == trim_quotes(s.subrange(0, j)),
    decreases s.len() - j,
{
    if j < s.len() {
        assert(s.drop_last().subrange(0, j) =~= s.subrange(0, j));
        lemma_trim_skip_trailing(s.drop_last(), j);
    } else {
        assert(s.subrange(0, j) =~= s);
    }
}

/// `s` without the double quotes at either end.
pub fn strip_quotes(s: &str) -> (r: String)
    ensures
        r@ == trim_quotes(s@),
{
    let n = s.unicode_len();
    let mut start: usize = 0;
    while start < n && s.get_char(start) == '"'
        invariant
            n == s@.len(),
            start <= n,
            forall|k: int| 0 <= k < start ==> s@[k] == '"',
        decreases n - start,
    {
        start = start + 1;
    }
    proof {
        lemma_trim_skip_leading(s@, start as int);
    }
    let ghost rest = s@.subrange(start as int, n as int);
    let mut end: usize = n;
    while end > start && s.get_char(end - 1) == '"'
        invariant
            n == s@.len(),
            start <= end <= n,
            rest == s@.subrange(start as int, n as int),
            forall|k: int| end <= k < n ==> s@[k] == '"',
        decreases end - start,
    {
        end = end - 1;
    }
    proof {
        let j = end - start;
        assert forall|k: int| j <= k < rest.len() implies rest[k] == '"' by {
            assert(rest[k] == s@[start + k]);
        }
        if rest.len() > 0 && j < rest.len() {
            assert(rest[0] == s@[start as int]);
        }
        lemma_trim_skip_trailing(rest, j);
        assert(rest.subrange(0, j) =~= s@.subrange(start as int, end as int));
    }
    let t = s.substring_char(start, end);
    proof {
        let t_v = s@.subrange(start as int, end as int);
        if t_v.len() > 0 {
            assert(t_v[0] != '"');
            assert(t_v.last() != '"');
        }
    }
    t.to_owned()
}

/// Whether some header value, its quotes stripped, equals `tag`.
pub fn tag_matches(tag: &str, values: &Vec<String>) -> (r: bool)
    ensures
        r == any_tag_matches(tag@, values@),
{
    let mut k: usize = 0;
    let tag_owned = tag.to_owned();
    while k < values.len()
        invariant
            k <= values.len(),
            tag_owned@ == tag@,
            forall|j: int| 0 <= j < k ==> trim_quotes(#[trigger] values@[j]@) != tag@,
        decreases values.len() - k,
    {
        let v = strip_quotes(values[k].as_str());
        if v.eq(&tag_owned) {
            return true;
        }
        k = k + 1;
    }
    false
}

/// Whether a read of an existing resource is answered "not modified".
pub fn evaluate_read(current: &Validators, pre: &Preconditions) -> (r: bool)
    ensures
        r == read_not_modified(etag_view(*current), current.last_modified, *pre),
{
    match (&pre.if_none_match, &current.etag) {
        (Some(values), Some(tag)) => tag_matches(tag.as_str(), values),
        _ => match (pre.if_modified_since, current.last_modified) {
            (Some(since), Some(modified)) => modified <= since,
            _ => false,
        },
    }
}

/// Whether a write to an existing resource fails its preconditions.
pub fn evaluate_write(current: &Validators, pre: &Preconditions) -> (r: bool)
    ensures
        r == write_precondition_failed(etag_view(*current), current.last_modified, *pre),
{
    let tag_fails = match (&pre.if_match, &current.etag) {
        (Some(values), Some(tag)) => !tag_matches(tag.as_str(), values),
        _ => false,
    };
    let date_fails = match (pre.if_unmodified_since, current.last_modified) {
        (Some(since), Some(modified)) => modified > since,
        _ => false,
    };
    tag_fails || date_fails
}

/// With only `If-Unmodified-Since: since` sent, a write to a resource last
/// modified at `modified` fails exactly when `since` is earlier.
pub proof fn lemma_unmodified_since(etag: Option<Seq<char>>, p: Preconditions, modified: u64, since: u64)
    requires
        p.if_match is None,
        p.if_unmodified_since == Some(since),
    ensures
        write_precondition_failed(etag, Some(modified), p) <==> since < modified,
{
}

/// With only `If-None-Match` sent, a read of a resource tagged `tag` is
/// answered "not modified" exactly when a sent value names that tag.
pub proof fn lemma_none_match(
    tag: Seq<char>,
    last_modified: Option<u64>,
    p: Preconditions,
    values: Vec<String>,
)
    requires
        p.if_none_match == Some(values),
    ensures
        read_not_modified(Some(tag), last_modified, p) <==> any_tag_matches(tag, values@),
{
}

} // verus!
