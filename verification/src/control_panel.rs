//! The small windows that the control panel opens for adding or editing an
//! entry: which requests to open one are accepted, and the label it gets.

use vstd::prelude::*;
use vstd::string::{StrSliceExecFns, StringExecFns};

use crate::common::{blank, is_blank};

verus! {

broadcast use vstd::string::group_string_axioms;

/// The longest action window title, in characters.
pub const MAX_ACTION_TITLE_CHARS: usize = 80;

/// An ASCII letter or digit, or a hyphen.
pub open spec fn name_char(c: char) -> bool {
    ('a' <= c <= 'z') || ('A' <= c <= 'Z') || ('0' <= c <= '9') || c == '-'
}

/// Whether `text` starts with `prefix`.
pub open spec fn begins_with(text: Seq<char>, prefix: Seq<char>) -> bool {
    prefix.len() <= text.len() && text.take(prefix.len() as int) == prefix
}

/// Whether `text` holds two dots from position `i`.
pub open spec fn dots_at(text: Seq<char>, i: int) -> bool {
    0 <= i < text.len() - 1 && text[i] == '.' && text[i + 1] == '.'
}

/// Whether `text` holds two dots in a row.
pub open spec fn has_dot_dot(text: Seq<char>) -> bool {
    exists|i: int| #[trigger] dots_at(text, i)
}

/// Whether `text` holds a query or fragment mark.
pub open spec fn has_query_or_fragment(text: Seq<char>) -> bool {
    exists|i: int| 0 <= i < text.len() && (text[i] == '?' || text[i] == '#')
}

/// Whether a page may open in an action window: an add or edit page of the
/// control panel, without `..`, query or fragment.
pub open spec fn action_page(url: Seq<char>) -> bool {
    &&& (begins_with(url, "/control-panel/add/"@) || begins_with(url, "/control-panel/edit/"@))
    &&& !has_dot_dot(url)
    &&& !has_query_or_fragment(url)
}

/// What a request to open an action window is answered: the window label, or
/// why the request is refused.
pub open spec fn action_window(name: Seq<char>, title: Seq<char>, url: Seq<char>) -> Result<Seq<char>, Seq<char>> {
    if name.len() == 0 || !(forall|i: int| 0 <= i < name.len() ==> name_char(#[trigger] name[i])) {
        Err("Action window name must contain only letters, numbers, or hyphens."@)
    } else if blank(title) || title.len() > MAX_ACTION_TITLE_CHARS {
        Err("Action window title must contain between 1 and 80 characters."@)
    } else if !action_page(url) {
        Err("Action windows can only open control-panel add or edit pages."@)
    } else {
        Ok("control-panel-action-"@ + name)
    }
}

/// Whether `text` starts with `prefix`.
fn starts_with(text: &str, prefix: &str) -> (r: bool)
    ensures
        r == begins_with(text@, prefix@),
{
    let n = prefix.unicode_len();
    if n > text.unicode_len() {
        return false;
    }
    let mut i: usize = 0;
    while i < n
        invariant
            n == prefix@.len(),
            n <= text@.len(),
            i <= n,
            forall|j: int| 0 <= j < i ==> text@[j] == prefix@[j],
        decreases n - i,
    {
        if text.get_char(i) != prefix.get_char(i) {
            assert(text@.take(n as int)[i as int] != prefix@[i as int]);
            return false;
        }
        i = i + 1;
    }
    assert(text@.take(n as int) =~= prefix@);
    true
}

/// Checks a request to open an action window; answers the window's label.
pub fn check_action_window(name: &str, title: &str, page_url: &str) -> (r: Result<String, String>)
    ensures
        match r {
            Ok(label) => action_window(name@, title@, page_url@) == Ok::<Seq<char>, Seq<char>>(label@),
            Err(e) => action_window(name@, title@, page_url@) == Err::<Seq<char>, Seq<char>>(e@),
        },
{
    let n = name.unicode_len();
    let mut name_ok = n > 0;
    let mut i: usize = 0;
    while i < n
        invariant
            n == name@.len(),
            i <= n,
            name_ok == (n > 0 && forall|j: int| 0 <= j < i ==> name_char(#[trigger] name@[j])),
        decreases n - i,
    {
        let c = name.get_char(i);
        let ok = ('a' <= c && c <= 'z') || ('A' <= c && c <= 'Z') || ('0' <= c && c <= '9') || c
            == '-';
        name_ok = name_ok && ok;
        i = i + 1;
    }
    if !name_ok {
        return Err("Action window name must contain only letters, numbers, or hyphens.".to_owned());
    }
    if is_blank(title) || title.unicode_len() > MAX_ACTION_TITLE_CHARS {
        return Err("Action window title must contain between 1 and 80 characters.".to_owned());
    }
    proof {
        reveal_strlit("/control-panel/add/");
        reveal_strlit("/control-panel/edit/");
        reveal_strlit("control-panel-action-");
    }
    let mut page_ok = starts_with(page_url, "/control-panel/add/") || starts_with(
        page_url,
        "/control-panel/edit/",
    );
    let m = page_url.unicode_len();
    let mut k: usize = 0;
    while k < m
        invariant
            m == page_url@.len(),
            k <= m,
            page_ok == ((begins_with(page_url@, "/control-panel/add/"@) || begins_with(
                page_url@,
                "/control-panel/edit/"@,
            )) && !(exists|i: int| 0 <= i < k && #[trigger] dots_at(page_url@, i))
                && !(exists|i: int| 0 <= i < k && (#[trigger] page_url@[i] == '?' || page_url@[i] == '#'))),
        decreases m - k,
    {
        let c = page_url.get_char(k);
        if c == '?' || c == '#' {
            page_ok = false;
        }
        if k + 1 < m && c == '.' && page_url.get_char(k + 1) == '.' {
            assert(dots_at(page_url@, k as int));
            page_ok = false;
        }
        proof {
            if !dots_at(page_url@, k as int) {
                assert forall|i: int| 0 <= i < k + 1 && #[trigger] dots_at(page_url@, i) implies i < k by {}
            }
        }
        k = k + 1;
    }
    proof {
        assert forall|i: int| #[trigger] dots_at(page_url@, i) implies 0 <= i < m by {}
    }
    if !page_ok {
        return Err("Action windows can only open control-panel add or edit pages.".to_owned());
    }
    let mut label = "control-panel-action-".to_owned();
    label.append(name);
    Ok(label)
}

} // verus!
