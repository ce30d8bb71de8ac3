//! The allow-list gate in front of mutating and administrative requests.
use vstd::prelude::*;
use crate::text::{chars_of, ends_with, has_prefix, has_suffix, starts_with};

verus! {

/// `s` with every `*` taken out.
pub open spec fn without_wildcards(s: Seq<char>) -> Seq<char>
    decreases s.len(),
{
    if s.len() == 0 {
        s
    } else if s.last() == '*' {
        without_wildcards(s.drop_last())
    } else {
        without_wildcards(s.drop_last()).push(s.last())
    }
}

/// One allow-list entry admits `ip`: the entry equals it, or the entry holds a
/// `*` and, with the stars taken out, is a prefix or a suffix of `ip`.
pub open spec fn entry_admits(entry: Seq<char>, ip: Seq<char>) -> bool {
    entry == ip || (entry.contains('*') && (has_prefix(ip, without_wildcards(entry))
        || has_suffix(ip, without_wildcards(entry))))
}

/// Some entry of the allow-list admits `ip`.
pub open spec fn list_admits(allowed: Seq<String>, ip: Seq<char>) -> bool {
    exists|i: int| 0 <= i < allowed.len() && entry_admits(#[trigger] allowed[i]@, ip)
}

/// The HTTP method of a request: those that mutate, `GET`, and any other.
#[derive(Clone, Copy, Debug, PartialEq, Eq, Structural)]
pub enum Method {
    Get,
    Post,
    Put,
    Delete,
    Other,
}

/// The paths of the administrative endpoints.
pub open spec fn is_admin_path(path: Seq<char>) -> bool {
    path == "/purge"@ || path == "/compact"@ || path == "/settings"@ || path == "/status"@
        || path == "/trees"@
}

/// A request goes through the allow-list when it mutates or targets an
/// administrative endpoint.
pub open spec fn is_guarded(method: Method, path: Seq<char>) -> bool {
    method == Method::Post || method == Method::Put || method == Method::Delete
        || is_admin_path(path)
}

/// Splits `entry` into its characters without the stars, and whether it had any.
fn strip_wildcards(entry: &[char]) -> (r: (Vec<char>, bool))
    ensures
        r.0@ == without_wildcards(entry@),
        r.1 == entry@.contains('*'),
{
    let mut out: Vec<char> = Vec::new();
    let mut star = false;
    let mut i: usize = 0;
    while i < entry.len()
        invariant
            i <= entry@.len(),
            out@ == without_wildcards(entry@.subrange(0, i as int)),
            star == entry@.subrange(0, i as int).contains('*'),
        decreases entry@.len() - i,
    {
        let ghost pre = entry@.subrange(0, i as int);
        let ghost next = entry@.subrange(0, i + 1);
        assert(next.drop_last() == pre);
        assert(next.last() == entry@[i as int]);
        if entry[i] == '*' {
            star = true;
            assert(next[i as int] == '*');
        } else {
            out.push(entry[i]);
            assert(next.contains('*') ==> pre.contains('*')) by {
                if next.contains('*') {
                    let k = choose|k: int| 0 <= k < next.len() && next[k] == '*';
                    assert(k < i);
                    assert(pre[k] == '*');
                }
            }
        }
        if star {
            assert(next.contains('*')) by {
                if !pre.contains('*') {
                    assert(next[i as int] == '*');
                } else {
                    let k = choose|k: int| 0 <= k < pre.len() && pre[k] == '*';
                    assert(next[k] == '*');
                }
            }
        }
        i = i + 1;
    }
    assert(entry@.subrange(0, entry@.len() as int) == entry@);
    (out, star)
}

/// Whether the allow-list admits `ip`.
pub fn is_ip_allowed(ip: &str, allowed_ips: &[String]) -> (r: bool)
    ensures
        r == list_admits(allowed_ips@, ip@),
{
    let ipc = chars_of(ip);
    let mut i: usize = 0;
    while i < allowed_ips.len()
        invariant
            ipc@ == ip@,
            i <= allowed_ips@.len(),
            forall|j: int| 0 <= j < i ==> !entry_admits(#[trigger] allowed_ips@[j]@, ip@),
        decreases allowed_ips@.len() - i,
    {
        let entry = chars_of(allowed_ips[i].as_str());
        let (pattern, star) = strip_wildcards(entry.as_slice());
        let exact = entry.len() == ipc.len() && starts_with(ipc.as_slice(), entry.as_slice());
        proof {
            if entry@ == ip@ {
                assert(ipc@.subrange(0, entry@.len() as int) == ipc@);
            }
        }
        if exact || (star && (starts_with(ipc.as_slice(), pattern.as_slice())
            || ends_with(ipc.as_slice(), pattern.as_slice()))) {
            proof {
                if exact {
                    assert(ipc@.subrange(0, entry@.len() as int) == ipc@);
                }
                assert(entry_admits(allowed_ips@[i as int]@, ip@));
            }
            return true;
        }
        i = i + 1;
    }
    false
}

/// Whether a request from `ip` may proceed: a guarded request needs an entry of
/// the allow-list that admits the address; any other request passes.
pub fn may_proceed(method: Method, path: &str, ip: &str, allowed_ips: &[String]) -> (r: bool)
    ensures
        r == (!is_guarded(method, path@) || list_admits(allowed_ips@, ip@)),
{
    let guarded = match method {
        Method::Post | Method::Put | Method::Delete => true,
        _ => is_admin_path_exec(path),
    };
    if guarded {
        is_ip_allowed(ip, allowed_ips)
    } else {
        true
    }
}

fn is_admin_path_exec(path: &str) -> (r: bool)
    ensures
        r == is_admin_path(path@),
{
    crate::text::same_text(path, "/purge") || crate::text::same_text(path, "/compact")
        || crate::text::same_text(path, "/settings") || crate::text::same_text(path, "/status")
        || crate::text::same_text(path, "/trees")
}

} // verus!
