use vstd::prelude::*;

verus! {

/// `s` begins with `pre`.
pub open spec fn starts_with(s: Seq<char>, pre: Seq<char>) -> bool {
    pre.len() <= s.len() && s.subrange(0, pre.len() as int) == pre
}

/// The scheme that a server address without one is given.
pub open spec fn http_scheme() -> Seq<char> {
    seq!['h', 't', 't', 'p', ':', '/', '/']
}

/// The secure scheme prefix.
pub open spec fn https_scheme() -> Seq<char> {
    seq!['h', 't', 't', 'p', 's', ':', '/', '/']
}

/// `s` without its trailing slashes.
pub open spec fn trim_end_slashes(s: Seq<char>) -> Seq<char>
    decreases s.len(),
{
    if s.len() > 0 && s.last() == '/' {
        trim_end_slashes(s.drop_last())
    } else {
        s
    }
}

/// A server address with its scheme defaulted and its trailing slashes
/// removed.
pub open spec fn normalized_url(s: Seq<char>) -> Seq<char> {
    trim_end_slashes(
        if starts_with(s, http_scheme()) || starts_with(s, https_scheme()) {
            s
        } else {
            http_scheme() + s
        },
    )
}

/// The characters that `char::is_whitespace` accepts (Unicode White_Space).
pub open spec fn is_space(c: char) -> bool {
    ('\t' <= c <= '\r') || c == ' ' || c == '\u{85}' || c == '\u{a0}' || c == '\u{1680}' || (
    '\u{2000}' <= c <= '\u{200a}') || c == '\u{2028}' || c == '\u{2029}' || c == '\u{202f}'
        || c == '\u{205f}' || c == '\u{3000}'
}

/// `s` without leading white space.
pub open spec fn trim_start_spaces(s: Seq<char>) -> Seq<char>
    decreases s.len(),
{
    if s.len() > 0 && is_space(s[0]) {
        trim_start_spaces(s.subrange(1, s.len() as int))
    } else {
        s
    }
}

/// `s` without trailing white space.
pub open spec fn trim_end_spaces(s: Seq<char>) -> Seq<char>
    decreases s.len(),
{
    if s.len() > 0 && is_space(s.last()) {
        trim_end_spaces(s.drop_last())
    } else {
        s
    }
}

/// `s` without white space at either end.
pub open spec fn trim_spaces(s: Seq<char>) -> Seq<char> {
    trim_end_spaces(trim_start_spaces(s))
}

/// `k` is the position of the first colon of `s`.
pub open spec fn is_first_colon(s: Seq<char>, k: int) -> bool {
    &&& 0 <= k < s.len()
    &&& s[k] == ':'
    &&& forall|j: int| 0 <= j < k ==> #[trigger] s[j] != ':'
}

/// The name of the cookie header, in lower case.
pub open spec fn set_cookie_name() -> Seq<char> {
    seq!['s', 'e', 't', '-', 'c', 'o', 'o', 'k', 'i', 'e']
}

/// `c` equals the lower-case character `t` up to ASCII case.
pub open spec fn eq_ignore_ascii_case(c: char, t: char) -> bool {
    c == t || ('a' <= t <= 'z' && c as u32 + 32 == t as u32)
}

/// `key` names the cookie header, in any ASCII case.
pub open spec fn is_set_cookie_name(key: Seq<char>) -> bool {
    key.len() == set_cookie_name().len() && forall|j: int|
        0 <= j < key.len() ==> eq_ignore_ascii_case(#[trigger] key[j], set_cookie_name()[j])
}

/// The session token that one response header line carries: the trimmed
/// value after the first colon where the name before it is `Set-Cookie`.
pub open spec fn header_cookie(line: Seq<char>) -> Option<Seq<char>> {
    if exists|k: int| is_first_colon(line, k) {
        let k = choose|k: int| is_first_colon(line, k);
        if is_set_cookie_name(line.subrange(0, k)) {
            Some(trim_spaces(line.subrange(k + 1, line.len() as int)))
        } else {
            None
        }
    } else {
        None
    }
}

/// The token of the first header line of `lines` that carries one.
pub open spec fn first_cookie(lines: Seq<Seq<char>>) -> Option<Seq<char>>
    decreases lines.len(),
{
    if lines.len() == 0 {
        None
    } else {
        match first_cookie(lines.drop_last()) {
            Some(c) => Some(c),
            None => header_cookie(lines.last()),
        }
    }
}

fn starts_with_str(s: &str, pre: &str) -> (r: bool)
    ensures
        r == starts_with(s@, pre@),
{
    let n = pre.unicode_len();
    if n > s.unicode_len() {
        return false;
    }
    let mut i: usize = 0;
    while i < n
        invariant
            n == pre@.len(),
            n <= s@.len(),
            i <= n,
            forall|j: int| 0 <= j < i ==> s@[j] == pre@[j],
        decreases n - i,
    {
        if s.get_char(i) != pre.get_char(i) {
            assert(s@.subrange(0, n as int)[i as int] != pre@[i as int]);
            return false;
        }
        i += 1;
    }
    assert(s@.subrange(0, n as int) =~= pre@);
    true
}

/// Gives a server address the plain scheme where it has neither `http://`
/// nor `https://`, and removes its trailing slashes.
pub fn normalize_url(url: &str) -> (r: String)
    ensures
        r@ == normalized_url(url@),
{
    proof {
        reveal_strlit("http://");
        reveal_strlit("https://");
        assert("http://"@ =~= http_scheme());
        assert("https://"@ =~= https_scheme());
    }
    let full: String = if starts_with_str(url, "http://") || starts_with_str(url, "https://") {
        url.to_owned()
    } else {
        String::from_str("http://").concat(url)
    };
    let s: &str = full.as_str();
    let mut end: usize = s.unicode_len();
    assert(s@.subrange(0, end as int) =~= s@);
    while end > 0 && s.get_char(end - 1) == '/'
        invariant
            end <= s@.len(),
            trim_end_slashes(s@) == trim_end_slashes(s@.subrange(0, end as int)),
        decreases end,
    {
        assert(s@.subrange(0, end as int).drop_last() =~= s@.subrange(0, end - 1));
        end -= 1;
    }
    assert(s@.subrange(0, end as int) == trim_end_slashes(s@.subrange(0, end as int)));
    s.substring_char(0, end).to_owned()
}

fn is_space_char(c: char) -> (r: bool)
    ensures
        r == is_space(c),
{
    ('\t' <= c && c <= '\r') || c == ' ' || c == '\u{85}' || c == '\u{a0}' || c == '\u{1680}' || (
    '\u{2000}' <= c && c <= '\u{200a}') || c == '\u{2028}' || c == '\u{2029}' || c == '\u{202f}'
        || c == '\u{205f}' || c == '\u{3000}'
}

/// `s` with the white space at both ends removed.
pub fn trim_str(s: &str) -> (r: String)
    ensures
        r@ == trim_spaces(s@),
{
    let n: usize = s.unicode_len();
    let mut start: usize = 0;
    assert(s@.subrange(0, n as int) =~= s@);
    while start < n && is_space_char(s.get_char(start))
        invariant
            n == s@.len(),
            start <= n,
            trim_start_spaces(s@) == trim_start_spaces(s@.subrange(start as int, n as int)),
        decreases n - start,
    {
        assert(s@.subrange(start as int, n as int).subrange(1, n - start) =~= s@.subrange(start + 1, n as int));
        start += 1;
    }
    let ghost mid = s@.subrange(start as int, n as int);
    assert(trim_start_spaces(s@) == mid);
    let mut end: usize = n;
    while end > start && is_space_char(s.get_char(end - 1))
        invariant
            n == s@.len(),
            start <= end <= n,
            mid == s@.subrange(start as int, n as int),
            trim_end_spaces(mid) == trim_end_spaces(s@.subrange(start as int, end as int)),
        decreases end,
    {
        assert(s@.subrange(start as int, end as int).drop_last() =~= s@.subrange(start as int, end - 1));
        end -= 1;
    }
    assert(trim_end_spaces(s@.subrange(start as int, end as int)) == s@.subrange(start as int, end as int));
    s.substring_char(start, end).to_owned()
}

/// The session token of one response header line, if it is a `Set-Cookie`
/// header.
pub fn cookie_from_header(line: &str) -> (r: Option<String>)
    ensures
        match r {
            Some(c) => header_cookie(line@) == Some(c@),
            None => header_cookie(line@).is_none(),
        },
{
    let n: usize = line.unicode_len();
    let mut k: usize = 0;
    while k < n && line.get_char(k) != ':'
        invariant
            n == line@.len(),
            k <= n,
            forall|j: int| 0 <= j < k ==> #[trigger] line@[j] != ':',
        decreases n - k,
    {
        k += 1;
    }
    if k == n {
        proof {
            if exists|x: int| is_first_colon(line@, x) {
                let x = choose|x: int| is_first_colon(line@, x);
                assert(line@[x] != ':');
            }
        }
        return None;
    }
    proof {
        assert(is_first_colon(line@, k as int));
        let x = choose|x: int| is_first_colon(line@, x);
        if x < k {
            assert(line@[x] != ':');
        }
        if x > k {
            assert(line@[k as int] != ':');
        }
        assert(x == k);
        reveal_strlit("set-cookie");
        assert("set-cookie"@ =~= set_cookie_name());
    }
    let key = line.substring_char(0, k);
    assert(header_cookie(line@) == (if is_set_cookie_name(key@) {
        Some(trim_spaces(line@.subrange(k + 1, n as int)))
    } else {
        None
    }));
    let name = "set-cookie";
    if key.unicode_len() != 10 {
        return None;
    }
    let mut j: usize = 0;
    while j < 10
        invariant
            k < n == line@.len(),
            key@ == line@.subrange(0, k as int),
            key@.len() == 10,
            header_cookie(line@) == (if is_set_cookie_name(key@) {
                Some(trim_spaces(line@.subrange(k + 1, n as int)))
            } else {
                None
            }),
            name@ == set_cookie_name(),
            j <= 10,
            forall|i: int| 0 <= i < j ==> eq_ignore_ascii_case(#[trigger] key@[i], set_cookie_name()[i]),
        decreases 10 - j,
    {
        let c = key.get_char(j);
        let t = name.get_char(j);
        if !(c == t || ('a' <= t && t <= 'z' && c as u32 + 32 == t as u32)) {
            assert(!eq_ignore_ascii_case(key@[j as int], set_cookie_name()[j as int]));
            return None;
        }
        j += 1;
    }
    let value = line.substring_char(k + 1, n);
    Some(trim_str(value))
}

/// The session token of the first header line that carries one.
pub fn find_session_cookie(lines: &Vec<String>) -> (r: Option<String>)
    ensures
        match r {
            Some(c) => first_cookie(lines@.map_values(|h: String| h@)) == Some(c@),
            None => first_cookie(lines@.map_values(|h: String| h@)).is_none(),
        },
{
    let ghost views = lines@.map_values(|h: String| h@);
    let mut found: Option<String> = None;
    let mut i: usize = 0;
    while i < lines.len()
        invariant
            i <= lines.len(),
            views == lines@.map_values(|h: String| h@),
            match found {
                Some(c) => first_cookie(views.take(i as int)) == Some(c@),
                None => first_cookie(views.take(i as int)).is_none(),
            },
        decreases lines.len() - i,
    {
        assert(views.take(i + 1).drop_last() =~= views.take(i as int));
        if found.is_none() {
            found = cookie_from_header(lines[i].as_str());
        }
        i += 1;
    }
    assert(views.take(lines.len() as int) =~= views);
    found
}

/// The lower-case hexadecimal digits.
pub open spec fn hex_chars() -> Seq<char> {
    seq!['0', '1', '2', '3', '4', '5', '6', '7', '8', '9', 'a', 'b', 'c', 'd', 'e', 'f']
}

/// How one character stands inside a JSON string: a quote and a backslash
/// get a backslash in front, a control character below U+0020 becomes
/// `\u00XX`, and any other character stands as it is.
pub open spec fn json_escaped_char(c: char) -> Seq<char> {
    if c == '"' {
        seq!['\\', '"']
    } else if c == '\\' {
        seq!['\\', '\\']
    } else if (c as u32) < 0x20 {
        seq!['\\', 'u', '0', '0', hex_chars()[(c as u32 as int) / 16], hex_chars()[(c as u32 as int) % 16]]
    } else {
        seq![c]
    }
}

/// `s` written as the contents of a JSON string.
pub open spec fn json_escaped(s: Seq<char>) -> Seq<char>
    decreases s.len(),
{
    if s.len() == 0 {
        seq![]
    } else {
        json_escaped(s.drop_last()) + json_escaped_char(s.last())
    }
}

/// `s` written as the contents of a JSON string.
pub fn json_escape(s: &str) -> (r: String)
    ensures
        r@ == json_escaped(s@),
{
    let hex = "0123456789abcdef";
    proof {
        reveal_strlit("0123456789abcdef");
        reveal_strlit("\\\"");
        reveal_strlit("\\\\");
        reveal_strlit("\\u00");
        assert(hex@ =~= hex_chars());
    }
    let n: usize = s.unicode_len();
    let mut out = String::new();
    let mut i: usize = 0;
    while i < n
        invariant
            n == s@.len(),
            i <= n,
            hex@ == hex_chars(),
            "\\\""@ == seq!['\\', '"'],
            "\\\\"@ == seq!['\\', '\\'],
            "\\u00"@ == seq!['\\', 'u', '0', '0'],
            out@ == json_escaped(s@.take(i as int)),
        decreases n - i,
    {
        let c = s.get_char(i);
        let ghost before = out@;
        assert(s@.take(i + 1).drop_last() =~= s@.take(i as int));
        if c == '"' {
            out.append("\\\"");
        } else if c == '\\' {
            out.append("\\\\");
        } else if (c as u32) < 0x20 {
            let code = c as u32;
            out.append("\\u00");
            let hi = (code / 16) as usize;
            let lo = (code % 16) as usize;
            out.append(hex.substring_char(hi, hi + 1));
            out.append(hex.substring_char(lo, lo + 1));
            assert(out@ =~= before + json_escaped_char(c));
        } else {
            out.append(s.substring_char(i, i + 1));
            assert(out@ =~= before + json_escaped_char(c));
        }
        assert(out@ =~= json_escaped(s@.take(i + 1)));
        i += 1;
    }
    assert(s@.take(n as int) =~= s@);
    out
}

/// The body of an authentication request carrying `password`: a JSON object
/// whose one member `password` holds it as a string.
pub fn auth_body(password: &str) -> (r: String)
    ensures
        r@ == "{\"password\": \""@ + json_escaped(password@) + "\"}"@,
{
    let escaped = json_escape(password);
    String::from_str("{\"password\": \"").concat(escaped.as_str()).concat("\"}")
}

} // verus!
