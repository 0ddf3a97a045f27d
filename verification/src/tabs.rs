//! Tabs of the WebView shell: each tab's history, which navigation events a
//! tab ignores, and the strings that the WebView's script calls hand back.
use vstd::prelude::*;
use crate::source::{url_host_path, url_host_path_of};
use crate::text::{chars_of, has_prefix, is_ws, ltrim, rtrim, starts_with, str_is, string_from, string_of, trim, trimmed};

verus! {

/// One tab: what was asked for, where it is, its title, whether it is
/// loading, and its history with the index of the current entry.
#[derive(Clone, Debug)]
pub struct TabState {
    pub source: String,
    pub current_url: String,
    pub title: String,
    pub is_loading: bool,
    pub history: Vec<String>,
    pub history_index: usize,
}

/// What a tab holds.
pub struct TabModel {
    pub source: Seq<char>,
    pub current_url: Seq<char>,
    pub title: Seq<char>,
    pub is_loading: bool,
    pub history: Seq<Seq<char>>,
    pub history_index: nat,
}

impl View for TabState {
    type V = TabModel;

    open spec fn view(&self) -> TabModel {
        TabModel {
            source: self.source@,
            current_url: self.current_url@,
            title: self.title@,
            is_loading: self.is_loading,
            history: history_view(self.history@),
            history_index: self.history_index as nat,
        }
    }
}

/// The texts of a history.
pub open spec fn history_view(h: Seq<String>) -> Seq<Seq<char>> {
    h.map_values(|s: String| s@)
}

/// A history and its current index after `url` is recorded: nothing changes
/// when `url` is the current entry; otherwise the entries after the current
/// one are dropped and `url` becomes the new last, current entry.
pub open spec fn recorded(h: Seq<Seq<char>>, i: nat, url: Seq<char>) -> (Seq<Seq<char>>, nat) {
    if i < h.len() && h[i as int] == url {
        (h, i)
    } else {
        let kept = if i + 1 < h.len() {
            h.take(i + 1 as int)
        } else {
            h
        };
        (kept.push(url), kept.len())
    }
}

/// Records a visit to `url` in the tab's history.
pub fn record_history_for_tab(tab: &mut TabState, url: &str)
    requires
        old(tab).history_index < usize::MAX,
    ensures
        (history_view(final(tab).history@), final(tab).history_index as nat) == recorded(
            history_view(old(tab).history@),
            old(tab).history_index as nat,
            url@,
        ),
        final(tab).history_index < usize::MAX,
        final(tab).source == old(tab).source,
        final(tab).current_url == old(tab).current_url,
        final(tab).title == old(tab).title,
        final(tab).is_loading == old(tab).is_loading,
{
    let ghost h = history_view(tab.history@);
    let i = tab.history_index;
    if i < tab.history.len() && str_is(tab.history[i].as_str(), url) {
        return;
    }
    if i + 1 < tab.history.len() {
        tab.history.truncate(i + 1);
        proof {
            assert(history_view(tab.history@) =~= h.take(i + 1 as int));
        }
    }
    let ghost kept = history_view(tab.history@);
    tab.history.push(url.to_owned());
    proof {
        assert(history_view(tab.history@) =~= kept.push(url@));
    }
    tab.history_index = tab.history.len() - 1;
}

/// The label a tab shows: "New Tab" for an empty title, the first 21
/// characters and "..." for a title of more than 24, otherwise the title.
pub open spec fn tab_label_of(title: Seq<char>) -> Seq<char> {
    if title.len() == 0 {
        "New Tab"@
    } else if title.len() > 24 {
        title.take(21) + "..."@
    } else {
        title
    }
}

pub fn tab_label(title: &str) -> (r: String)
    ensures
        r@ == tab_label_of(title@),
{
    let chars = chars_of(title);
    if chars.len() == 0 {
        return String::from_str("New Tab");
    }
    if chars.len() > 24 {
        let mut label = string_of(&chars, 0, 21);
        label.push('.');
        label.push('.');
        label.push('.');
        proof {
            reveal_strlit("...");
            assert(label@ =~= title@.take(21) + "..."@);
        }
        return label;
    }
    string_from(&chars)
}

/// A tab's label is never longer than 24 characters, and a title that
/// fits is shown whole.
pub proof fn law_tab_labels_fit(title: Seq<char>)
    ensures
        tab_label_of(title).len() <= 24,
        1 <= title.len() <= 24 ==> tab_label_of(title) == title,
{
    reveal_strlit("New Tab");
    reveal_strlit("...");
}

/// The status line of the WebView shell's toolbar: the message, with "..."
/// after it while the page loads.
pub open spec fn status_text_of(message: Seq<char>, is_loading: bool) -> Seq<char> {
    if is_loading {
        message + "..."@
    } else {
        message
    }
}

pub fn status_text(message: &str, is_loading: bool) -> (r: String)
    ensures
        r@ == status_text_of(message@, is_loading),
{
    let mut text = String::from_str(message);
    if is_loading {
        text.push('.');
        text.push('.');
        text.push('.');
        proof {
            reveal_strlit("...");
            assert(text@ =~= message@ + "..."@);
        }
    }
    text
}

/// `about:blank` and `about:srcdoc...` are the WebView's own pages.
pub open spec fn is_internal_about(url: Seq<char>) -> bool {
    url == "about:blank"@ || starts_with(url, "about:srcdoc"@)
}

pub fn is_internal_about_url(url: &str) -> (r: bool)
    ensures
        r == is_internal_about(url@),
{
    if str_is(url, "about:blank") {
        return true;
    }
    let v = chars_of(url);
    has_prefix(&v, "about:srcdoc")
}

/// The host that serves bot challenges.
pub open spec fn challenge_host() -> Seq<char> {
    "challenges.cloudflare.com"@
}

/// The host of a URL as `url::Url::host_str` gives it (none where the text
/// is not a URL).
pub open spec fn host_of(url: Seq<char>) -> Option<Seq<char>> {
    match url_host_path_of(url) {
        Some((h, _)) => h,
        None => None,
    }
}

/// A bot-challenge page (on the challenge host, under
/// `/cdn-cgi/challenge-platform/`) while the tab is on another host.
pub open spec fn is_challenge_for_other_host(current_url: Seq<char>, url: Seq<char>) -> bool {
    match url_host_path_of(url) {
        None => false,
        Some((host, path)) => {
            host == Some(challenge_host()) && starts_with(path, "/cdn-cgi/challenge-platform/"@)
                && host_of(current_url) != Some(challenge_host())
        },
    }
}

pub fn is_cloudflare_challenge_url_for_other_host(tab: &TabState, url: &str) -> (r: bool)
    ensures
        r == is_challenge_for_other_host(tab.current_url@, url@),
{
    let candidate = match url_host_path(url) {
        None => {
            return false;
        },
        Some(c) => c,
    };
    let (host, path) = candidate;
    let on_challenge_host = match &host {
        Some(h) => str_is(h.as_str(), "challenges.cloudflare.com"),
        None => false,
    };
    let path_chars = chars_of(path.as_str());
    if !on_challenge_host || !has_prefix(&path_chars, "/cdn-cgi/challenge-platform/") {
        return false;
    }
    let current_on_challenge_host = match url_host_path(tab.current_url.as_str()) {
        Some((Some(h), _)) => str_is(h.as_str(), "challenges.cloudflare.com"),
        _ => false,
    };
    !current_on_challenge_host
}

/// A tab ignores the WebView's own blank pages once it shows something
/// else, and bot-challenge pages for a site on another host.
pub open spec fn ignores_navigation(tab_source: Seq<char>, current_url: Seq<char>, url: Seq<char>) -> bool {
    (is_internal_about(url) && !is_internal_about(current_url) && tab_source.len() != 0)
        || is_challenge_for_other_host(current_url, url)
}

pub fn should_ignore_navigation_for_tab(tab: &TabState, url: &str) -> (r: bool)
    ensures
        r == ignores_navigation(tab.source@, tab.current_url@, url@),
{
    (is_internal_about_url(url) && !is_internal_about_url(tab.current_url.as_str())
        && !tab.source.as_str().is_empty()) || is_cloudflare_challenge_url_for_other_host(tab, url)
}

/// The value of one hexadecimal digit.
pub open spec fn hex_digit(c: char) -> Option<nat> {
    if '0' <= c && c <= '9' {
        Some((c as u32 - '0' as u32) as nat)
    } else if 'a' <= c && c <= 'f' {
        Some((c as u32 - 'a' as u32 + 10) as nat)
    } else if 'A' <= c && c <= 'F' {
        Some((c as u32 - 'A' as u32 + 10) as nat)
    } else {
        None
    }
}

/// The value of a run of hexadecimal digits (none if any character is not
/// one).
pub open spec fn hex_digits(s: Seq<char>) -> Option<nat>
    decreases s.len(),
{
    if s.len() == 0 {
        Some(0)
    } else {
        match (hex_digits(s.drop_last()), hex_digit(s.last())) {
            (Some(v), Some(d)) => Some(v * 16 + d),
            _ => None,
        }
    }
}

/// `u16::from_str_radix(s, 16)`: an optional `+` and at least one
/// hexadecimal digit, with a value that fits in 16 bits.
pub open spec fn hex_u16(s: Seq<char>) -> Option<nat> {
    let digits = if s.len() > 0 && s[0] == '+' {
        s.drop_first()
    } else {
        s
    };
    if digits.len() == 0 {
        None
    } else {
        match hex_digits(digits) {
            Some(v) => if v <= 0xffff {
                Some(v)
            } else {
                None
            },
            None => None,
        }
    }
}

/// The character that a one-letter escape stands for.
pub open spec fn escaped(e: char) -> char {
    if e == 'b' {
        '\u{8}'
    } else if e == 'f' {
        '\u{c}'
    } else if e == 'n' {
        '\n'
    } else if e == 'r' {
        '\r'
    } else if e == 't' {
        '\t'
    } else {
        e
    }
}

/// Escapes decoded from index `i` on, appended to `acc`: `\u` takes the
/// next four characters (fewer at the end) as a hexadecimal code and adds
/// its character unless the code does not parse or is a surrogate; a
/// trailing backslash ends the text.
pub open spec fn unescape(s: Seq<char>, i: int, acc: Seq<char>) -> Seq<char>
    decreases s.len() - i,
{
    if i >= s.len() || i < 0 {
        acc
    } else if s[i] != '\\' {
        unescape(s, i + 1, acc.push(s[i]))
    } else if i + 1 >= s.len() {
        acc
    } else if s[i + 1] == 'u' {
        let end = if i + 6 <= s.len() {
            i + 6
        } else {
            s.len() as int
        };
        let next = match hex_u16(s.subrange(i + 2, end)) {
            Some(code) => if 0xd800 <= code && code <= 0xdfff {
                acc
            } else {
                acc.push((code as u32) as char)
            },
            None => acc,
        };
        unescape(s, end, next)
    } else {
        unescape(s, i + 2, acc.push(escaped(s[i + 1])))
    }
}

/// What a script's result means as a string: nothing for an empty result,
/// `null` or `undefined`; a quoted result with its escapes decoded; any
/// other result as it stands (trimmed).
pub open spec fn js_string(value: Seq<char>) -> Option<Seq<char>> {
    let t = trim(value);
    if t.len() == 0 || t == "null"@ || t == "undefined"@ {
        None
    } else if t.len() >= 2 && t[0] == '"' && t[t.len() - 1] == '"' {
        Some(unescape(t.subrange(1, t.len() - 1), 0, Seq::empty()))
    } else {
        Some(t)
    }
}

pub open spec fn pow16(k: nat) -> nat
    decreases k,
{
    if k == 0 {
        1
    } else {
        16 * pow16((k - 1) as nat)
    }
}

fn hex_digit_value(c: char) -> (r: Option<u32>)
    ensures
        match r {
            Some(d) => hex_digit(c) == Some(d as nat) && d < 16,
            None => hex_digit(c) is None,
        },
{
    if '0' <= c && c <= '9' {
        Some(c as u32 - '0' as u32)
    } else if 'a' <= c && c <= 'f' {
        Some(c as u32 - 'a' as u32 + 10)
    } else if 'A' <= c && c <= 'F' {
        Some(c as u32 - 'A' as u32 + 10)
    } else {
        None
    }
}

/// `hex_u16` of the characters `v[start..end]`, at most four of them.
fn parse_hex_u16(v: &Vec<char>, start: usize, end: usize) -> (r: Option<u32>)
    requires
        start <= end <= v.len(),
        end - start <= 4,
    ensures
        match r {
            Some(x) => hex_u16(v@.subrange(start as int, end as int)) == Some(x as nat),
            None => hex_u16(v@.subrange(start as int, end as int)) is None,
        },
{
    let ghost s = v@.subrange(start as int, end as int);
    let mut a = start;
    if a < end && v[a] == '+' {
        a = a + 1;
    }
    let ghost digits = if s.len() > 0 && s[0] == '+' {
        s.drop_first()
    } else {
        s
    };
    proof {
        assert(v@.subrange(a as int, end as int) =~= digits);
        reveal_with_fuel(pow16, 5);
    }
    if a == end {
        return None;
    }
    let mut val: u32 = 0;
    let mut j = a;
    while j < end
        invariant
            start <= a < end <= v.len(),
            a <= j <= end,
            end - start <= 4,
            s == v@.subrange(start as int, end as int),
            digits == (if s.len() > 0 && s[0] == '+' {
                s.drop_first()
            } else {
                s
            }),
            v@.subrange(a as int, end as int) == digits,
            val < pow16((j - a) as nat),
            pow16(4) == 65536,
            hex_digits(v@.subrange(a as int, j as int)) == Some(val as nat),
        decreases end - j,
    {
        assert(v@.subrange(a as int, j + 1).drop_last() =~= v@.subrange(a as int, j as int));
        match hex_digit_value(v[j]) {
            None => {
                proof {
                    lemma_hex_digits_stays_none(v@.subrange(a as int, end as int), (j - a + 1) as int);
                    assert(v@.subrange(a as int, end as int).take((j - a + 1) as int) =~= v@.subrange(a as int, j + 1));
                }
                return None;
            },
            Some(d) => {
                proof {
                    lemma_pow16_mono((j - a + 1) as nat, 4);
                }
                val = val * 16 + d;
            },
        }
        j = j + 1;
    }
    proof {
        lemma_pow16_mono((j - a) as nat, 4);
    }
    Some(val)
}

proof fn lemma_pow16_mono(k: nat, m: nat)
    requires
        k <= m,
    ensures
        pow16(k) <= pow16(m),
    decreases m - k,
{
    if k < m {
        lemma_pow16_mono(k, (m - 1) as nat);
    }
}

/// Once a prefix holds a character that is not a digit, so does the text.
proof fn lemma_hex_digits_stays_none(s: Seq<char>, k: int)
    requires
        0 <= k <= s.len(),
        hex_digits(s.take(k)) is None,
    ensures
        hex_digits(s) is None,
    decreases s.len() - k,
{
    if k < s.len() {
        assert(s.take(k + 1).drop_last() =~= s.take(k));
        lemma_hex_digits_stays_none(s, k + 1);
    } else {
        assert(s.take(k) =~= s);
    }
}

/// Calls `char::from_u32`: the character with that code, or none for a
/// surrogate code or one past U+10FFFF.
#[verifier::external_body]
fn char_from_u32(code: u32) -> (r: Option<char>)
    ensures
        match r {
            Some(c) => c as u32 == code,
            None => (0xd800 <= code && code <= 0xdfff) || code > 0x10ffff,
        },
{
    char::from_u32(code)
}

/// Decodes the escapes of the characters `v[start..end]`.
fn unescape_range(v: &Vec<char>, start: usize, end: usize) -> (r: String)
    requires
        start <= end <= v.len(),
    ensures
        r@ == unescape(v@.subrange(start as int, end as int), 0, Seq::empty()),
{
    let ghost s = v@.subrange(start as int, end as int);
    let mut out = String::new();
    let mut i = start;
    while i < end
        invariant
            start <= i <= end <= v.len(),
            s == v@.subrange(start as int, end as int),
            unescape(s, i - start, out@) == unescape(s, 0, Seq::empty()),
        decreases end - i,
    {
        let k: Ghost<int> = Ghost(i - start);
        let ghost before = out@;
        let c = v[i];
        proof {
            assert(s[k@] == c);
        }
        if c != '\\' {
            out.push(c);
            i = i + 1;
            proof {
                assert(unescape(s, k@, before) == unescape(s, k@ + 1, before.push(c)));
            }
        } else if i + 1 >= end {
            proof {
                assert(unescape(s, k@, out@) == out@);
                assert(unescape(s, s.len() as int, out@) == out@);
            }
            i = end;
        } else if v[i + 1] == 'u' {
            let hex_end = if end - (i + 2) >= 4 {
                i + 6
            } else {
                end
            };
            proof {
                assert(s.subrange(k@ + 2, (hex_end - start) as int) =~= v@.subrange(i + 2, hex_end as int));
            }
            let parsed = parse_hex_u16(v, i + 2, hex_end);
            match parsed {
                Some(code) => {
                    if code < 0xd800 || code > 0xdfff {
                        match char_from_u32(code) {
                            Some(ch) => {
                                out.push(ch);
                                proof {
                                    vstd::utf8::char_u32_cast(ch, code);
                                }
                            },
                            None => {},
                        }
                    }
                },
                None => {},
            }
            proof {
                assert(s[k@ + 1] == 'u');
                assert(unescape(s, k@, before) == unescape(s, (hex_end - start) as int, out@));
            }
            i = hex_end;
        } else {
            let e = v[i + 1];
            let ch = if e == 'b' {
                '\u{8}'
            } else if e == 'f' {
                '\u{c}'
            } else if e == 'n' {
                '\n'
            } else if e == 'r' {
                '\r'
            } else if e == 't' {
                '\t'
            } else {
                e
            };
            out.push(ch);
            proof {
                assert(s[k@ + 1] == e);
                assert(unescape(s, k@, before) == unescape(s, k@ + 2, before.push(ch)));
            }
            i = i + 2;
        }
    }
    out
}

/// The string that a WebView script call handed back, as text: `None` for
/// an empty result, `null` or `undefined`; a JSON string with its escapes
/// decoded; anything else as it stands.
pub fn parse_js_string_result(value: &str) -> (r: Option<String>)
    ensures
        match r {
            Some(t) => js_string(value@) == Some(t@),
            None => js_string(value@) is None,
        },
{
    let t = trimmed(value);
    let tv = chars_of(t.as_str());
    let n = tv.len();
    if n == 0 || str_is(t.as_str(), "null") || str_is(t.as_str(), "undefined") {
        return None;
    }
    if n >= 2 && tv[0] == '"' && tv[n - 1] == '"' {
        return Some(unescape_range(&tv, 1, n - 1));
    }
    Some(t)
}

/// Recording a visit leaves the history on that page: afterwards the
/// current entry is the visited URL, and recording the same URL again
/// changes nothing, so a reload adds no duplicate entry.
pub proof fn law_history_records_once(h: Seq<Seq<char>>, i: nat, url: Seq<char>)
    ensures
        recorded(h, i, url).1 < recorded(h, i, url).0.len(),
        recorded(h, i, url).0[recorded(h, i, url).1 as int] == url,
        recorded(recorded(h, i, url).0, recorded(h, i, url).1, url) == recorded(h, i, url),
{
}

proof fn lemma_unescape_plain(s: Seq<char>, i: int, acc: Seq<char>)
    requires
        0 <= i <= s.len(),
        !s.contains('\\'),
    ensures
        unescape(s, i, acc) == acc + s.skip(i),
    decreases s.len() - i,
{
    if i < s.len() {
        lemma_unescape_plain(s, i + 1, acc.push(s[i]));
        assert(acc.push(s[i]) + s.skip(i + 1) =~= acc + s.skip(i));
    } else {
        assert(acc + s.skip(i) =~= acc);
    }
}

/// A quoted script result without escapes reads back as the text between
/// the quotes.
pub proof fn law_plain_js_string_reads_back(text: Seq<char>)
    requires
        !text.contains('\\'),
    ensures
        js_string(seq!['"'] + text + seq!['"']) == Some(text),
{
    let q = seq!['"'] + text + seq!['"'];
    assert(q[0] == '"');
    assert(q.last() == '"');
    assert(!is_ws('"'));
    assert(ltrim(q) == q);
    assert(rtrim(q) == q);
    assert(trim(q) == q);
    reveal_strlit("null");
    reveal_strlit("undefined");
    assert(q != "null"@);
    assert(q != "undefined"@);
    assert(q.subrange(1, q.len() - 1) =~= text);
    lemma_unescape_plain(text, 0, Seq::empty());
    assert(Seq::<char>::empty() + text.skip(0) =~= text);
}

} // verus!
