//! Logical-key normalization for relational query text: whitespace is
//! collapsed, the key is capped to avoid unbounded growth from pathological
//! inputs, and the text is lowercased so that formatting differences do not
//! fragment counts.

use vstd::prelude::*;

verus! {

/// Longest key kept after normalization, in characters.
pub const MAX_KEY_CHARS: usize = 200;

/// `c` has the Unicode White_Space property.
pub open spec fn is_space_char(c: char) -> bool {
    let u = c as u32;
    ||| u == 0x20
    ||| (0x09 <= u && u <= 0x0D)
    ||| u == 0x85
    ||| u == 0xA0
    ||| u == 0x1680
    ||| (0x2000 <= u && u <= 0x200A)
    ||| u == 0x2028
    ||| u == 0x2029
    ||| u == 0x202F
    ||| u == 0x205F
    ||| u == 0x3000
}

/// Executable form of `is_space_char`.
pub fn is_space(c: char) -> (r: bool)
    ensures
        r == is_space_char(c),
{
    let u = c as u32;
    u == 0x20 || (0x09 <= u && u <= 0x0D) || u == 0x85 || u == 0xA0 || u == 0x1680 || (0x2000 <= u
        && u <= 0x200A) || u == 0x2028 || u == 0x2029 || u == 0x202F || u == 0x205F || u == 0x3000
}

/// The rest of the collapse of `s` from position `i` on. `started` says
/// whether a word character was already emitted, `space_seen` whether
/// whitespace was seen since: a single space then separates the next word.
pub open spec fn collapse_from(s: Seq<char>, i: int, started: bool, space_seen: bool) -> Seq<char>
    decreases s.len() - i,
{
    if i < 0 || i >= s.len() {
        Seq::empty()
    } else if is_space_char(s[i]) {
        collapse_from(s, i + 1, started, true)
    } else {
        (if started && space_seen {
            seq![' ']
        } else {
            Seq::empty()
        }) + seq![s[i]] + collapse_from(s, i + 1, true, false)
    }
}

/// `s` with every run of whitespace collapsed to one space and leading and
/// trailing whitespace removed.
pub open spec fn collapse_ws(s: Seq<char>) -> Seq<char> {
    collapse_from(s, 0, false, false)
}

/// `s` capped to the first `MAX_KEY_CHARS` characters.
pub open spec fn cap_key(s: Seq<char>) -> Seq<char> {
    if s.len() <= MAX_KEY_CHARS {
        s
    } else {
        s.take(MAX_KEY_CHARS as int)
    }
}

/// What `str::to_lowercase` returns: a function of the characters alone.
pub uninterp spec fn lower_of(s: Seq<char>) -> Seq<char>;

/// Relies on `str::to_lowercase` of std: the result is the Unicode lowercase
/// of the input, a function of the input characters alone; an empty input
/// yields an empty result.
#[verifier::external_body]
pub(crate) fn to_lowercase_str(s: &str) -> (r: String)
    ensures
        r@ == lower_of(s@),
        s@.len() == 0 ==> r@.len() == 0,
{
    s.to_lowercase()
}

/// Collapse whitespace in `sql` and cap the result, without lowercasing.
pub fn condensed_key(sql: &str) -> (r: String)
    ensures
        r@ == cap_key(collapse_ws(sql@)),
{
    let n = sql.unicode_len();
    let mut out = String::new();
    let mut i: usize = 0;
    let mut started: bool = false;
    let mut space_seen: bool = false;
    while i < n
        invariant
            i <= n,
            n == sql@.len(),
            collapse_ws(sql@) == out@ + collapse_from(sql@, i as int, started, space_seen),
            started == (out@.len() > 0),
        decreases n - i,
    {
        let c = sql.get_char(i);
        if is_space(c) {
            space_seen = true;
        } else {
            if started && space_seen {
                out.append(" ");
                proof {
                    reveal_strlit(" ");
                }
            }
            push_char(&mut out, c);
            started = true;
            space_seen = false;
        }
        i += 1;
        proof {
            assert(collapse_ws(sql@) =~= out@ + collapse_from(
                sql@,
                i as int,
                started,
                space_seen,
            ));
        }
    }
    proof {
        assert(collapse_ws(sql@) =~= out@);
    }
    // Cap to the first MAX_KEY_CHARS characters.
    let len = out.as_str().unicode_len();
    if len <= MAX_KEY_CHARS {
        out
    } else {
        let capped = out.as_str().substring_char(0, MAX_KEY_CHARS).to_owned();
        proof {
            assert(capped@ =~= cap_key(collapse_ws(sql@)));
        }
        capped
    }
}

/// Relies on `String::push` of std: appends exactly the one character.
#[verifier::external_body]
fn push_char(s: &mut String, c: char)
    ensures
        final(s)@ == old(s)@.push(c),
{
    s.push(c);
}

/// Normalize relational query text into a logical key: whitespace collapsed,
/// capped to `MAX_KEY_CHARS` characters, then lowercased.
pub fn normalize_sql(sql: &str) -> (r: String)
    ensures
        r@ == lower_of(cap_key(collapse_ws(sql@))),
{
    let condensed = condensed_key(sql);
    to_lowercase_str(condensed.as_str())
}

/// Every character of `s` is whitespace.
pub open spec fn all_blank(s: Seq<char>) -> bool {
    forall|i: int| 0 <= i < s.len() ==> is_space_char(s[i])
}

/// `s` holds no non-whitespace character.
pub fn is_blank(s: &str) -> (r: bool)
    ensures
        r == all_blank(s@),
{
    let n = s.unicode_len();
    let mut i: usize = 0;
    while i < n
        invariant
            i <= n,
            n == s@.len(),
            forall|j: int| 0 <= j < i ==> is_space_char(s@[j]),
        decreases n - i,
    {
        if !is_space(s.get_char(i)) {
            return false;
        }
        i += 1;
    }
    true
}

/// A notification is sent only to a configured, non-blank destination.
pub fn should_notify(webhook_url: &Option<String>) -> (r: bool)
    ensures
        r == match webhook_url {
            Some(u) => !all_blank(u@),
            None => false,
        },
{
    match webhook_url {
        Some(u) => !is_blank(u.as_str()),
        None => false,
    }
}

} // verus!
