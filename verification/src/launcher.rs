//! Saver names: the allowlist of bundled savers and the sanitising of a saver
//! name taken from a path or a command line.
use vstd::prelude::*;
use vstd::string::StrSliceExecFns;

verus! {

/// The savers shipped with the runner.
pub const ALLOWED_SAVERS: [&'static str; 7] = ["beams", "storm", "security", "matrix", "pipes", "starfield", "fire"];

/// The part of `s` after its last `/` (all of `s` when it has none).
pub open spec fn after_last_slash(s: Seq<char>) -> Seq<char>
    decreases s.len(),
{
    if s.len() == 0 {
        s
    } else if s.last() == '/' {
        Seq::empty()
    } else {
        after_last_slash(s.drop_last()).push(s.last())
    }
}

/// `s` without the extension `.scr`, when it ends with one.
pub open spec fn strip_scr(s: Seq<char>) -> Seq<char> {
    if s.len() >= 4 && s.subrange(s.len() - 4, s.len() as int) == seq!['.', 's', 'c', 'r'] {
        s.subrange(0, s.len() - 4)
    } else {
        s
    }
}

/// The characters of the prefix `screensaver-`.
pub open spec fn saver_prefix() -> Seq<char> {
    seq!['s', 'c', 'r', 'e', 'e', 'n', 's', 'a', 'v', 'e', 'r', '-']
}

/// `s` without the prefix `screensaver-`, when it starts with one.
pub open spec fn strip_saver_prefix(s: Seq<char>) -> Seq<char> {
    if s.len() >= 12 && s.subrange(0, 12) == saver_prefix() {
        s.subrange(12, s.len() as int)
    } else {
        s
    }
}

/// Characters a saver name may hold: ASCII letters and digits, `-` and `_`.
pub open spec fn is_name_char(c: char) -> bool {
    ('a' <= c && c <= 'z') || ('A' <= c && c <= 'Z') || ('0' <= c && c <= '9') || c == '-' || c == '_'
}

/// The saver name that `raw` designates: its file name, without a `.scr`
/// extension and without a `screensaver-` prefix, when that is non-empty and
/// made of name characters only.
pub open spec fn sanitized_name(raw: Seq<char>) -> Option<Seq<char>> {
    let name = strip_saver_prefix(strip_scr(after_last_slash(raw)));
    if name.len() > 0 && forall|k: int| 0 <= k < name.len() ==> is_name_char(#[trigger] name[k]) {
        Some(name)
    } else {
        None
    }
}

fn is_name_char_exec(c: char) -> (r: bool)
    ensures
        r == is_name_char(c),
{
    ('a' <= c && c <= 'z') || ('A' <= c && c <= 'Z') || ('0' <= c && c <= '9') || c == '-' || c == '_'
}

proof fn lemma_after_last_slash(s: Seq<char>, j: int)
    requires
        0 <= j <= s.len(),
        j == 0 || s[j - 1] == '/',
        forall|k: int| j <= k < s.len() ==> s[k] != '/',
    ensures
        after_last_slash(s) == s.subrange(j, s.len() as int),
    decreases s.len(),
{
    if s.len() == 0 {
    } else if j == s.len() {
        assert(after_last_slash(s) =~= s.subrange(j, s.len() as int));
    } else {
        lemma_after_last_slash(s.drop_last(), j);
        assert(after_last_slash(s) =~= s.subrange(j, s.len() as int));
    }
}

/// The saver name that `raw` designates (see `sanitized_name`): for example
/// `/path/to/beams.scr` gives `beams` and `screensaver-storm` gives `storm`;
/// an empty name or one with other characters gives `None`.
pub fn sanitize_saver_name(raw: &str) -> (r: Option<String>)
    ensures
        match r {
            Some(s) => sanitized_name(raw@) == Some(s@),
            None => sanitized_name(raw@) is None,
        },
{
    let n = raw.unicode_len();
    let ghost s = raw@;
    // start of the file name: one past the last '/'
    let mut start = n;
    while start > 0 && raw.get_char(start - 1) != '/'
        invariant
            0 <= start <= n,
            n == s.len(),
            s == raw@,
            forall|k: int| start <= k < n ==> s[k] != '/',
        decreases start,
    {
        start = start - 1;
    }
    proof {
        lemma_after_last_slash(s, start as int);
    }
    let mut end = n;
    if n - start >= 4 && raw.get_char(n - 4) == '.' && raw.get_char(n - 3) == 's'
        && raw.get_char(n - 2) == 'c' && raw.get_char(n - 1) == 'r' {
        end = n - 4;
    }
    proof {
        let base = s.subrange(start as int, n as int);
        if base.len() >= 4 && base.subrange(base.len() - 4, base.len() as int) == seq!['.', 's', 'c', 'r'] {
            assert(base.subrange(base.len() - 4, base.len() as int)[0] == s[n - 4]);
            assert(base.subrange(base.len() - 4, base.len() as int)[1] == s[n - 3]);
            assert(base.subrange(base.len() - 4, base.len() as int)[2] == s[n - 2]);
            assert(base.subrange(base.len() - 4, base.len() as int)[3] == s[n - 1]);
        }
        if end < n {
            assert(base.subrange(base.len() - 4, base.len() as int) =~= seq!['.', 's', 'c', 'r']);
        }
        assert(strip_scr(base) =~= s.subrange(start as int, end as int));
    }
    let prefix: [char; 12] = ['s', 'c', 'r', 'e', 'e', 'n', 's', 'a', 'v', 'e', 'r', '-'];
    let mut has_prefix = end - start >= 12;
    let mut k: usize = 0;
    while has_prefix && k < 12
        invariant
            0 <= k <= 12,
            start <= end <= n,
            n == s.len(),
            s == raw@,
            prefix@ == saver_prefix(),
            has_prefix ==> end - start >= 12,
            has_prefix ==> forall|m: int| 0 <= m < k ==> s[start + m] == prefix@[m],
            !has_prefix ==> !(end - start >= 12 && s.subrange(start as int, start + 12) == saver_prefix()),
        decreases 12 - k + (if has_prefix { 1int } else { 0int }),
    {
        if raw.get_char(start + k) != prefix[k] {
            has_prefix = false;
            proof {
                if end - start >= 12 && s.subrange(start as int, start + 12) == saver_prefix() {
                    assert(s.subrange(start as int, start + 12)[k as int] == s[start + k]);
                }
            }
        } else {
            k = k + 1;
        }
    }
    proof {
        let stripped = s.subrange(start as int, end as int);
        if end - start >= 12 {
            assert(stripped.subrange(0, 12) =~= s.subrange(start as int, start + 12));
        }
        if has_prefix {
            assert(stripped.subrange(0, 12) =~= saver_prefix());
            assert(stripped.subrange(12, stripped.len() as int) =~= s.subrange(start + 12, end as int));
        }
        assert(strip_saver_prefix(stripped) =~= if has_prefix {
            s.subrange(start + 12, end as int)
        } else {
            stripped
        });
    }
    if has_prefix {
        start = start + 12;
    }
    let ghost name = s.subrange(start as int, end as int);
    assert(name == strip_saver_prefix(strip_scr(after_last_slash(s))));
    if start == end {
        return None;
    }
    let mut i = start;
    while i < end
        invariant
            start <= i <= end <= n,
            n == s.len(),
            s == raw@,
            name == s.subrange(start as int, end as int),
            name == strip_saver_prefix(strip_scr(after_last_slash(s))),
            forall|m: int| start <= m < i ==> is_name_char(s[m]),
        decreases end - i,
    {
        if !is_name_char_exec(raw.get_char(i)) {
            assert(name[i - start] == s[i as int]);
            assert(!is_name_char(name[i - start]));
            return None;
        }
        i = i + 1;
    }
    assert forall|m: int| 0 <= m < name.len() implies is_name_char(#[trigger] name[m]) by {
        assert(name[m] == s[start + m]);
    }
    Some(raw.substring_char(start, end).to_owned())
}

} // verus!
