//! What the gateway tells the caller once the backend has answered.

use vstd::prelude::*;
use vstd::string::*;
use core::str::FromStr;
use ipp::prelude::Uri;
use crate::model::{JobAttribute, AttrValue, ValueView};

verus! {

/// The answer to a print request that went through.
#[derive(Debug, Clone)]
pub struct SuccessReply {
    pub message: String,
    pub job_link: Option<String>,
}

/// The text of `uri` once its scheme is replaced by `scheme`, or nothing
/// where `uri` is no URI, `scheme` no scheme, or the URI cannot carry one.
pub uninterp spec fn uri_with_scheme(uri: Seq<char>, scheme: Seq<char>) -> Option<Seq<char>>;

/// `Uri::from_str`, `Uri::into_parts`, `Uri::from_parts` and the URI's
/// `to_string`, with the scheme of the parts replaced in between. Trusted:
/// the result depends on the two texts alone, and a URI that was given a
/// scheme is written with that scheme and `://` in front.
#[verifier::external_body]
fn with_scheme(uri: &str, scheme: &str) -> (r: Option<String>)
    ensures
        match r {
            Some(t) => uri_with_scheme(uri@, scheme@) == Some(t@) && (scheme@ + "://"@).is_prefix_of(
                t@,
            ),
            None => uri_with_scheme(uri@, scheme@) is None,
        },
{
    let mut parts = Uri::from_str(uri).ok()?.into_parts();
    parts.scheme = Some(scheme.parse().ok()?);
    Uri::from_parts(parts).ok().map(|uri| uri.to_string())
}

/// The value of the first attribute of `group` that is called `name`.
pub open spec fn named(group: Seq<JobAttribute>, name: Seq<char>) -> Option<ValueView>
    decreases group.len(),
{
    if group.len() == 0 {
        None
    } else if group[0].name@ == name {
        Some(group[0].value@)
    } else {
        named(group.drop_first(), name)
    }
}

/// The value called `name` in the first group that has one.
pub open spec fn first_named(groups: Seq<Vec<JobAttribute>>, name: Seq<char>) -> Option<
    ValueView,
>
    decreases groups.len(),
{
    if groups.len() == 0 {
        None
    } else {
        match named(groups[0]@, name) {
            Some(v) => Some(v),
            None => first_named(groups.drop_first(), name),
        }
    }
}

/// The link that the given job location becomes for the caller: the same
/// URI under the scheme `https`.
pub open spec fn public_link(location: Seq<char>) -> Option<Seq<char>> {
    uri_with_scheme(location, "https"@)
}

/// The job link of a response: the first `job-uri` attribute of its groups,
/// if that is a URI, under the scheme `https`.
pub open spec fn link_of(groups: Seq<Vec<JobAttribute>>) -> Option<Seq<char>> {
    match first_named(groups, "job-uri"@) {
        Some(ValueView::Uri(u)) => public_link(u),
        _ => None,
    }
}

/// Looks `name` up in one attribute group.
pub fn find_named<'a>(group: &'a Vec<JobAttribute>, name: &str) -> (r: Option<&'a AttrValue>)
    ensures
        match r {
            Some(v) => named(group@, name@) == Some(v@),
            None => named(group@, name@) is None,
        },
{
    let key = name.to_owned();
    let mut i: usize = 0;
    proof {
        assert(group@.skip(0) =~= group@);
    }
    while i < group.len()
        invariant
            i <= group.len(),
            key@ == name@,
            named(group@, name@) == named(group@.skip(i as int), name@),
        decreases group.len() - i,
    {
        proof {
            assert(group@.skip(i as int).drop_first() =~= group@.skip(i + 1));
        }
        if group[i].name == key {
            return Some(&group[i].value);
        }
        i += 1;
    }
    None
}

/// Looks `name` up in the groups of a response, first group first.
pub fn find_in_groups<'a>(groups: &'a Vec<Vec<JobAttribute>>, name: &str) -> (r: Option<
    &'a AttrValue,
>)
    ensures
        match r {
            Some(v) => first_named(groups@, name@) == Some(v@),
            None => first_named(groups@, name@) is None,
        },
{
    let mut i: usize = 0;
    proof {
        assert(groups@.skip(0) =~= groups@);
    }
    while i < groups.len()
        invariant
            i <= groups.len(),
            first_named(groups@, name@) == first_named(groups@.skip(i as int), name@),
        decreases groups.len() - i,
    {
        proof {
            assert(groups@.skip(i as int).drop_first() =~= groups@.skip(i + 1));
        }
        match find_named(&groups[i], name) {
            Some(v) => {
                return Some(v);
            },
            None => {},
        }
        i += 1;
    }
    None
}

/// Rewrites a job location for the caller: whatever scheme the backend is
/// reached by, the link that leaves the gateway is an `https` one.
pub fn rewrite_link(location: &str) -> (r: Option<String>)
    ensures
        match r {
            Some(l) => public_link(location@) == Some(l@) && "https://"@.is_prefix_of(l@),
            None => public_link(location@) is None,
        },
{
    proof {
        reveal_strlit("https");
        reveal_strlit("://");
        reveal_strlit("https://");
        assert("https"@ + "://"@ =~= "https://"@);
    }
    with_scheme(location, "https")
}

/// The job link of a response, if the backend reported a job location.
pub fn job_link(groups: &Vec<Vec<JobAttribute>>) -> (r: Option<String>)
    ensures
        match r {
            Some(l) => link_of(groups@) == Some(l@) && "https://"@.is_prefix_of(l@),
            None => link_of(groups@) is None,
        },
{
    match find_in_groups(groups, "job-uri") {
        Some(AttrValue::Uri(u)) => rewrite_link(u.as_str()),
        _ => None,
    }
}

/// The reply to a print request that the backend accepted.
pub fn success_reply(groups: &Vec<Vec<JobAttribute>>) -> (r: SuccessReply)
    ensures
        r.message@ == "lmao"@,
        match r.job_link {
            Some(l) => link_of(groups@) == Some(l@) && "https://"@.is_prefix_of(l@),
            None => link_of(groups@) is None,
        },
{
    SuccessReply { message: "lmao".to_owned(), job_link: job_link(groups) }
}

} // verus!
