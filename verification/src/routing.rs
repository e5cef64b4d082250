//! Path rules of the HTTP router: the context path it is mounted under, and the paths
//! of device protocols that are exempt from browser CSRF checks.
use vstd::prelude::*;

use crate::text::{has_prefix, spec_trim, text_eq, trim_text};
use crate::thumbnails::opt_str_view;
use vstd::string::StrSliceExecFns;

verus! {

/// The context path to mount the router under: the trimmed value, unless it is blank
/// or the root.
pub open spec fn spec_mounted_context_path(value: Option<Seq<char>>) -> Option<Seq<char>> {
    match value {
        Some(v) => {
            let t = spec_trim(v);
            if t.len() == 0 || t == "/"@ {
                None
            } else {
                Some(t)
            }
        },
        None => None,
    }
}

/// The context path to mount the router under, from its configured value.
pub fn mounted_runtime_context_path(value: Option<&str>) -> (r: Option<String>)
    ensures
        r matches Some(t) ==> spec_mounted_context_path(opt_str_view(value)) == Some(t@),
        r is None <==> spec_mounted_context_path(opt_str_view(value)) is None,
{
    match value {
        None => None,
        Some(v) => {
            let t = trim_text(v);
            if t.unicode_len() == 0 || text_eq(t.as_str(), "/") {
                None
            } else {
                Some(t)
            }
        },
    }
}

/// Whether a request path belongs to a device protocol (Kobo, KOReader, OPDS), whose
/// clients are no browsers.
pub open spec fn spec_device_protocol_path(path: Seq<char>) -> bool {
    ||| path == "/kobo"@
    ||| path == "/koreader"@
    ||| path == "/opds"@
    ||| "/kobo/"@.is_prefix_of(path)
    ||| "/koreader/"@.is_prefix_of(path)
    ||| "/opds/"@.is_prefix_of(path)
}

/// Whether a request path belongs to a device protocol, exempt from CSRF checks.
pub fn non_browser_client_protocol_path(path: &str) -> (r: bool)
    ensures
        r == spec_device_protocol_path(path@),
        path@ == "/kobo"@ || "/kobo/"@.is_prefix_of(path@) ==> r,
        path@ == "/koreader"@ || "/koreader/"@.is_prefix_of(path@) ==> r,
        path@ == "/opds"@ || "/opds/"@.is_prefix_of(path@) ==> r,
{
    text_eq(path, "/kobo") || text_eq(path, "/koreader") || text_eq(path, "/opds") || has_prefix(
        path,
        "/kobo/",
    ) || has_prefix(path, "/koreader/") || has_prefix(path, "/opds/")
}

/// Each device protocol owns its root path and every path below it: a Kobo, KOReader or
/// OPDS client's requests, at any depth, are never taken for a browser's. The API and the
/// web UI's paths are a browser's.
pub proof fn lemma_device_protocols_own_their_subtrees(rest: Seq<char>)
    ensures
        spec_device_protocol_path("/kobo"@),
        spec_device_protocol_path("/koreader"@),
        spec_device_protocol_path("/opds"@),
        spec_device_protocol_path("/kobo/"@ + rest),
        spec_device_protocol_path("/koreader/"@ + rest),
        spec_device_protocol_path("/opds/"@ + rest),
        !spec_device_protocol_path("/api/"@ + rest),
{
    reveal_strlit("/kobo/");
    reveal_strlit("/koreader/");
    reveal_strlit("/opds/");
    reveal_strlit("/kobo");
    reveal_strlit("/koreader");
    reveal_strlit("/opds");
    reveal_strlit("/api/");
    assert("/kobo/"@.is_prefix_of("/kobo/"@ + rest));
    assert("/koreader/"@.is_prefix_of("/koreader/"@ + rest));
    assert("/opds/"@.is_prefix_of("/opds/"@ + rest));
    let api = "/api/"@ + rest;
    assert(api[1] == 'a');
    assert(api.len() >= 5);
    assert(!("/kobo/"@.is_prefix_of(api))) by {
        assert("/kobo/"@[1] == 'k');
    }
    assert(!("/koreader/"@.is_prefix_of(api))) by {
        assert("/koreader/"@[1] == 'k');
    }
    assert(!("/opds/"@.is_prefix_of(api))) by {
        assert("/opds/"@[1] == 'o');
    }
    assert(api != "/kobo"@) by {
        assert("/kobo"@[1] == 'k');
    }
    assert(api != "/koreader"@) by {
        assert("/koreader"@[1] == 'k');
    }
    assert(api != "/opds"@) by {
        assert("/opds"@[1] == 'o');
    }
}

} // verus!
