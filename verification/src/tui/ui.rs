//! Text shown in the top bar of the browser: the inputs by file name, and
//! the theme label.

use vstd::prelude::*;

use crate::tui::browse::image_old::{find_last_slash, last_slash_before};
use crate::tui::theme::Theme;

verus! {

/// `s` without its trailing `/` characters.
pub open spec fn trim_slashes(s: Seq<char>) -> Seq<char>
    decreases s.len(),
{
    if s.len() > 0 && s.last() == '/' {
        trim_slashes(s.drop_last())
    } else {
        s
    }
}

/// Trimming slashes keeps a prefix of `s`.
pub proof fn lemma_trim_slashes(s: Seq<char>)
    ensures
        trim_slashes(s).len() <= s.len(),
        trim_slashes(s) =~= s.subrange(0, trim_slashes(s).len() as int),
        trim_slashes(s).len() == 0 || trim_slashes(s).last() != '/',
    decreases s.len(),
{
    if s.len() > 0 && s.last() == '/' {
        lemma_trim_slashes(s.drop_last());
    }
}

/// `s` is the one-character path component `.`.
pub open spec fn is_dot(s: Seq<char>) -> bool {
    s.len() == 1 && s[0] == '.'
}

/// `s` is the path component `..`.
pub open spec fn is_dot_dot(s: Seq<char>) -> bool {
    s.len() == 2 && s[0] == '.' && s[1] == '.'
}

/// The file name of a `/`-separated path: its last component, after
/// trailing slashes and `.` components are dropped; none when that
/// component is `..` or there is none.
pub open spec fn spec_file_name(s: Seq<char>) -> Option<Seq<char>>
    decreases s.len(),
{
    let t = trim_slashes(s);
    proof {
        lemma_trim_slashes(s);
    }
    match last_slash_before(t, t.len() as int) {
        Some(k) => {
            let seg = t.subrange(k + 1, t.len() as int);
            if is_dot(seg) {
                if 0 <= k < t.len() {
                    spec_file_name(t.subrange(0, k))
                } else {
                    None
                }
            } else if is_dot_dot(seg) || seg.len() == 0 {
                None
            } else {
                Some(seg)
            }
        },
        None => if t.len() == 0 || is_dot(t) || is_dot_dot(t) {
            None
        } else {
            Some(t)
        },
    }
}

/// Where the last `/` of the first `k` characters is.
proof fn lemma_last_slash(s: Seq<char>, k: int)
    requires
        0 <= k <= s.len(),
    ensures
        last_slash_before(s, k) matches Some(j) ==> 0 <= j < k && s[j] == '/',
    decreases k,
{
    if k > 0 {
        lemma_last_slash(s, k - 1);
    }
}

/// The file name of `path` (see `spec_file_name`).
pub fn file_name(path: &str) -> (r: Option<&str>)
    ensures
        r matches Some(n) ==> spec_file_name(path@) == Some(n@),
        r is None ==> spec_file_name(path@) is None,
{
    let n = path.unicode_len();
    let mut end = n;
    assert(path@.subrange(0, n as int) =~= path@);
    while end > 0
        invariant
            end <= n == path@.len(),
            spec_file_name(path@) == spec_file_name(path@.subrange(0, end as int)),
        decreases end,
    {
        let ghost cur = path@.subrange(0, end as int);
        let mut t = end;
        while t > 0 && path.get_char(t - 1) == '/'
            invariant
                t <= end <= n == path@.len(),
                cur == path@.subrange(0, end as int),
                trim_slashes(cur) == trim_slashes(path@.subrange(0, t as int)),
            decreases t,
        {
            assert(path@.subrange(0, t as int).drop_last() =~= path@.subrange(0, t - 1));
            t -= 1;
        }
        let ghost tt = path@.subrange(0, t as int);
        assert(trim_slashes(tt) == tt);
        let head = path.substring_char(0, t);
        assert(head@ =~= tt);
        proof {
            lemma_trim_slashes(cur);
            lemma_last_slash(tt, t as int);
        }
        match find_last_slash(head, t) {
            Some(k) => {
                let seg = head.substring_char(k + 1, t);
                let seg_len = t - (k + 1);
                if seg_len == 1 && seg.get_char(0) == '.' {
                    assert(tt.subrange(0, k as int) =~= path@.subrange(0, k as int));
                    end = k;
                } else if seg_len == 0 || (seg_len == 2 && seg.get_char(0) == '.' && seg.get_char(1) == '.') {
                    return None;
                } else {
                    return Some(seg);
                }
            },
            None => {
                if t == 0 || (t == 1 && head.get_char(0) == '.') || (t == 2 && head.get_char(0) == '.' && head.get_char(1) == '.') {
                    return None;
                }
                return Some(head);
            },
        }
    }
    assert(path@.subrange(0, 0) =~= Seq::<char>::empty());
    None
}

/// What the top bar shows for an input path: its file name, or the whole
/// path when it has none.
pub open spec fn shown_name(p: Seq<char>) -> Seq<char> {
    match spec_file_name(p) {
        Some(n) => n,
        None => p,
    }
}

/// The shown names of `inputs`, separated by `, `.
pub open spec fn spec_display_inputs(inputs: Seq<String>) -> Seq<char>
    decreases inputs.len(),
{
    if inputs.len() == 0 {
        Seq::empty()
    } else if inputs.len() == 1 {
        shown_name(inputs[0]@)
    } else {
        spec_display_inputs(inputs.drop_last()) + ", "@ + shown_name(inputs.last()@)
    }
}

/// The inputs by file name, separated by `, `.
pub fn display_inputs(inputs: &[String]) -> (s: String)
    ensures
        s@ == spec_display_inputs(inputs@),
{
    let mut out = String::new();
    let mut i: usize = 0;
    while i < inputs.len()
        invariant
            i <= inputs@.len(),
            out@ == spec_display_inputs(inputs@.subrange(0, i as int)),
        decreases inputs@.len() - i,
    {
        if i > 0 {
            out.append(", ");
        }
        let p = inputs[i].as_str();
        match file_name(p) {
            Some(name) => out.append(name),
            None => out.append(p),
        }
        proof {
            let sub = inputs@.subrange(0, i + 1);
            assert(sub.drop_last() =~= inputs@.subrange(0, i as int));
            assert(sub.last() == inputs@[i as int]);
            if i == 0 {
                assert(sub.len() == 1 && sub[0] == inputs@[0]);
            }
        }
        i += 1;
    }
    assert(inputs@.subrange(0, inputs@.len() as int) =~= inputs@);
    out
}

/// The theme's name in the top bar.
pub open spec fn spec_theme_label(t: Theme) -> Seq<char> {
    match t {
        Theme::Dark => "dark"@,
        Theme::Light => "light"@,
    }
}

/// `dark` or `light`.
pub fn theme_label(t: Theme) -> (s: &'static str)
    ensures
        s@ == spec_theme_label(t),
{
    match t {
        Theme::Dark => "dark",
        Theme::Light => "light",
    }
}

} // verus!
