//! Finding the public URL of a Cloudflare tunnel in the output of `cloudflared`.
use vstd::prelude::*;
use vstd::string::*;

use crate::text::{chars_of, end_of_run, find, starts_with, trim, Class};
#[allow(unused_imports)]
use crate::text::{
    all_in, in_class, lemma_occurs_in_piece, lemma_position, lemma_position_is, lemma_run_len,
    lemma_run_len_is, lemma_trimmed, lemma_trimmed_is, occurs, occurs_at, position, run_len,
    trimmed, white_space, words,
};

verus! {

/// `s` names a host of a quick tunnel or of a named tunnel.
pub open spec fn names_tunnel_host(s: Seq<char>) -> bool {
    occurs(s, ".trycloudflare.com"@) || occurs(s, ".cfargotunnel.com"@)
}

/// `s` is a tunnel URL: it starts with the scheme and names a tunnel host.
pub open spec fn is_tunnel_url(s: Seq<char>) -> bool {
    occurs_at(s, "https://"@, 0) && names_tunnel_host(s)
}

/// The first of `candidates` that is a tunnel URL once quotation marks and commas around it
/// are taken off.
pub open spec fn first_url(candidates: Seq<Seq<char>>) -> Option<Seq<char>>
    decreases candidates.len(),
{
    if candidates.len() == 0 {
        None
    } else {
        let candidate = trimmed(candidates[0], Class::Wrapping);
        if is_tunnel_url(candidate) {
            Some(candidate)
        } else {
            first_url(candidates.drop_first())
        }
    }
}

/// The link that starts at the first scheme of `line` and runs up to whitespace or a
/// quotation mark, if it names a tunnel host.
pub open spec fn embedded_url(line: Seq<char>) -> Option<Seq<char>> {
    match position(line, "https://"@) {
        Some(start) => {
            let rest = line.skip(start as int);
            let link = rest.take(run_len(rest, Class::Link) as int);
            if names_tunnel_host(link) {
                Some(link)
            } else {
                None
            }
        },
        None => None,
    }
}

/// The tunnel URL that `line` announces: a word of the line, or else a link inside one.
pub open spec fn tunnel_url(line: Seq<char>) -> Option<Seq<char>> {
    match first_url(words(line)) {
        Some(url) => Some(url),
        None => embedded_url(line),
    }
}

/// Whether `chars[from..to]` names a tunnel host.
fn has_tunnel_host(chars: &Vec<char>, from: usize, to: usize) -> (res: bool)
    requires
        from <= to <= chars@.len(),
    ensures
        res == names_tunnel_host(chars@.subrange(from as int, to as int)),
{
    let quick = chars_of(".trycloudflare.com");
    let named = chars_of(".cfargotunnel.com");
    let ghost s = chars@.subrange(from as int, to as int);
    proof {
        lemma_position(s, quick@);
        lemma_position(s, named@);
    }
    find(chars, from, to, &quick).is_some() || find(chars, from, to, &named).is_some()
}

/// The first of the words of `chars` that is a tunnel URL, by its two ends.
fn find_word(chars: &Vec<char>) -> (res: Option<(usize, usize)>)
    ensures
        match res {
            Some((a, b)) => a <= b <= chars@.len() && first_url(words(chars@)) == Some(
                chars@.subrange(a as int, b as int),
            ),
            None => first_url(words(chars@)) is None,
        },
{
    let scheme = chars_of("https://");
    let mut at: usize = 0;
    assert(chars@.skip(0) == chars@);
    loop
        invariant
            at <= chars@.len(),
            scheme@ == "https://"@,
            first_url(words(chars@)) == first_url(words(chars@.skip(at as int))),
        decreases chars.len() - at,
    {
        let ghost s = chars@.skip(at as int);
        let start = end_of_run(chars, at, Class::Blank);
        let ghost t = chars@.skip(start as int);
        assert(s.skip(run_len(s, Class::Blank) as int) == t);
        if start == chars.len() {
            return None;
        }
        let end = end_of_run(chars, start, Class::Solid);
        proof {
            lemma_run_len(s, Class::Blank);
            lemma_run_len(t, Class::Solid);
            let n = run_len(t, Class::Solid) as int;
            assert(t[0] == s[start - at]);
            assert(start < end);
            assert(t.take(n) == chars@.subrange(start as int, end as int));
            assert(t.skip(n) == chars@.skip(end as int));
            let head = seq![t.take(n)];
            assert((head + words(t.skip(n))).drop_first() == words(t.skip(n)));
        }
        let (a, b) = trim(chars, start, end, Class::Wrapping);
        if starts_with(chars, a, b, &scheme) && has_tunnel_host(chars, a, b) {
            return Some((a, b));
        }
        at = end;
    }
}

/// The tunnel URL that `line` announces.
fn find_url(line: &str) -> (res: Option<String>)
    ensures
        match res {
            Some(url) => tunnel_url(line@) == Some(url@),
            None => tunnel_url(line@) is None,
        },
{
    let chars = chars_of(line);
    if let Some((a, b)) = find_word(&chars) {
        return Some(line.substring_char(a, b).to_owned());
    }
    let scheme = chars_of("https://");
    assert(chars@.subrange(0, chars@.len() as int) == chars@);
    match find(&chars, 0, chars.len(), &scheme) {
        Some(start) => {
            proof {
                lemma_position(chars@, scheme@);
            }
            let end = end_of_run(&chars, start, Class::Link);
            proof {
                let rest = chars@.skip(start as int);
                assert(rest.take(run_len(rest, Class::Link) as int) == chars@.subrange(
                    start as int,
                    end as int,
                ));
            }
            if has_tunnel_host(&chars, start, end) {
                return Some(line.substring_char(start, end).to_owned());
            }
            None
        },
        None => None,
    }
}

/// Extract a Cloudflare tunnel URL from a line of `cloudflared` output.
///
/// Looks for `https://*.trycloudflare.com` (quick tunnels) or
/// `https://*.cfargotunnel.com` URLs in the text.
pub fn extract_cloudflare_url(line: &str) -> (res: Option<String>)
    ensures
        match res {
            Some(url) => tunnel_url(line@) == Some(url@),
            None => tunnel_url(line@) is None,
        },
        res matches Some(url) ==> exists|b: Seq<char>| url@ == #[trigger] ("https://"@ + b),
        res matches Some(url) ==> (exists|a: Seq<char>, b: Seq<char>|
            url@ == #[trigger] (a + ".trycloudflare.com"@ + b)) || (exists|
            a: Seq<char>,
            b: Seq<char>,
        | url@ == #[trigger] (a + ".cfargotunnel.com"@ + b)),
        res matches Some(url) ==> exists|a: Seq<char>, b: Seq<char>|
            line@ == #[trigger] (a + url@ + b),
{
    let res = find_url(line);
    proof {
        law_extracted_url_goes_to_a_tunnel_host(line@);
    }
    res
}

/// The scheme is made of link characters only.
proof fn lemma_scheme_is_link(s: Seq<char>)
    requires
        occurs_at(s, "https://"@, 0),
    ensures
        s.len() >= 8,
        s[0] == 'h',
        run_len(s, Class::Link) >= 8,
{
    reveal_strlit("https://");
    let scheme = "https://"@;
    assert(scheme.len() == 8);
    assert forall|i: int| 0 <= i < 8 implies in_class(#[trigger] s[i], Class::Link) by {
        assert(s[i] == s.subrange(0, 8)[i]);
        assert(scheme[i] == s[i]);
    }
    assert(s[0] == s.subrange(0, 8)[0]);
    lemma_run_len(s, Class::Link);
    if run_len(s, Class::Link) < 8 {
        assert(in_class(s[run_len(s, Class::Link) as int], Class::Link));
    }
}

/// A word is a piece of its line, holds no whitespace, and has whitespace or an end of the line
/// on either side.
proof fn lemma_word_is_piece(s: Seq<char>, k: int) -> (ends: (int, int))
    requires
        0 <= k < words(s).len(),
    ensures
        0 <= ends.0 < ends.1 <= s.len(),
        words(s)[k] == s.subrange(ends.0, ends.1),
        all_in(words(s)[k], Class::Solid),
        ends.0 > 0 ==> white_space(s[ends.0 - 1]),
        ends.1 < s.len() ==> white_space(s[ends.1]),
    decreases s.len(),
{
    let skipped = run_len(s, Class::Blank) as int;
    lemma_run_len(s, Class::Blank);
    let t = s.skip(skipped);
    let n = run_len(t, Class::Solid) as int;
    lemma_run_len(t, Class::Solid);
    assert(t.len() > 0);
    let rest = t.skip(n);
    if k == 0 {
        assert(words(s)[0] == t.take(n));
        assert(t.take(n) == s.subrange(skipped, skipped + n));
        assert(in_class(t[0], Class::Solid));
        if skipped > 0 {
            assert(in_class(s[skipped - 1], Class::Blank));
        }
        if n < t.len() {
            assert(!in_class(t[n], Class::Solid));
            assert(s[skipped + n] == t[n]);
        }
        (skipped, skipped + n)
    } else {
        assert(words(s)[k] == words(rest)[k - 1]);
        let (a, b) = lemma_word_is_piece(rest, k - 1);
        assert(rest.subrange(a, b) == s.subrange(skipped + n + a, skipped + n + b));
        assert(!in_class(t[n], Class::Solid));
        assert(rest[0] == t[n]);
        if a == 0 {
            assert(words(rest)[k - 1][0] == rest[0]);
        } else {
            assert(s[skipped + n + a - 1] == rest[a - 1]);
        }
        if b < rest.len() {
            assert(s[skipped + n + b] == rest[b]);
        }
        (skipped + n + a, skipped + n + b)
    }
}

/// What `first_url` returns is one of the candidates, trimmed.
proof fn lemma_first_url(candidates: Seq<Seq<char>>) -> (k: int)
    ensures
        first_url(candidates) matches Some(url) ==> {
            &&& 0 <= k < candidates.len()
            &&& url == trimmed(candidates[k], Class::Wrapping)
            &&& is_tunnel_url(url)
        },
    decreases candidates.len(),
{
    if candidates.len() == 0 || is_tunnel_url(trimmed(candidates[0], Class::Wrapping)) {
        0
    } else {
        let k = lemma_first_url(candidates.drop_first());
        k + 1
    }
}

/// `first_url` looks at the candidates in order.
proof fn lemma_first_url_concat(a: Seq<Seq<char>>, b: Seq<Seq<char>>)
    ensures
        first_url(a + b) == (match first_url(a) {
            Some(url) => Some(url),
            None => first_url(b),
        }),
    decreases a.len(),
{
    if a.len() == 0 {
        assert(a + b == b);
    } else {
        assert((a + b).drop_first() == a.drop_first() + b);
        lemma_first_url_concat(a.drop_first(), b);
    }
}

/// Text that is cut at whitespace has the words of its two parts.
proof fn lemma_words_concat(a: Seq<char>, b: Seq<char>)
    requires
        a.len() == 0 || b.len() == 0 || in_class(a.last(), Class::Blank) || in_class(
            b[0],
            Class::Blank,
        ),
    ensures
        words(a + b) == words(a) + words(b),
    decreases a.len(),
{
    let s = a + b;
    if b.len() == 0 {
        assert(s == a);
        assert(b.skip(run_len(b, Class::Blank) as int).len() == 0);
        assert(words(a) + words(b) == words(a));
        return ;
    }
    let skipped = run_len(a, Class::Blank) as int;
    lemma_run_len(a, Class::Blank);
    let t = a.skip(skipped);
    if t.len() == 0 {
        lemma_blank_front(a, b);
        assert(words(a) + words(b) == words(b));
    } else {
        assert forall|i: int| 0 <= i < skipped implies in_class(#[trigger] s[i], Class::Blank) by {
            assert(s[i] == a[i]);
        }
        assert(s[skipped] == a[skipped]);
        lemma_run_len_is(s, Class::Blank, skipped as nat);
        assert(s.skip(skipped) == t + b);
        let n = run_len(t, Class::Solid) as int;
        lemma_run_len(t, Class::Solid);
        assert(in_class(t[0], Class::Solid));
        assert forall|i: int| 0 <= i < n implies in_class(#[trigger] (t + b)[i], Class::Solid) by {
            assert((t + b)[i] == t[i]);
        }
        if n == t.len() {
            assert(t[n - 1] == a.last());
            assert((t + b)[n] == b[0]);
        } else {
            assert((t + b)[n] == t[n]);
        }
        lemma_run_len_is(t + b, Class::Solid, n as nat);
        let rest = t.skip(n);
        assert((t + b).take(n) == t.take(n));
        assert((t + b).skip(n) == rest + b);
        if rest.len() > 0 {
            assert(rest.last() == a.last());
        }
        lemma_words_concat(rest, b);
        assert(words(s) == seq![t.take(n)] + words(rest + b));
        assert(seq![t.take(n)] + (words(rest) + words(b)) == words(a) + words(b));
    }
}

/// Whitespace in front adds no word.
proof fn lemma_blank_front(a: Seq<char>, b: Seq<char>)
    requires
        run_len(a, Class::Blank) == a.len(),
    ensures
        words(a) == Seq::<Seq<char>>::empty(),
        words(a + b) == words(b),
{
    lemma_run_len(a, Class::Blank);
    lemma_run_len(b, Class::Blank);
    let s = a + b;
    let n = run_len(b, Class::Blank) as int;
    assert forall|i: int| 0 <= i < a.len() + n implies in_class(#[trigger] s[i], Class::Blank) by {
        if i < a.len() {
            assert(s[i] == a[i]);
        } else {
            assert(s[i] == b[i - a.len()]);
        }
    }
    if n < b.len() {
        assert(s[a.len() + n] == b[n]);
    }
    lemma_run_len_is(s, Class::Blank, (a.len() + n) as nat);
    assert(s.skip(a.len() + n) == b.skip(n));
    assert(a.skip(a.len() as int).len() == 0);
}

/// A text without whitespace is its only word.
proof fn lemma_single_word(s: Seq<char>)
    requires
        s.len() > 0,
        all_in(s, Class::Solid),
    ensures
        words(s) == seq![s],
{
    assert(in_class(s[0], Class::Solid));
    lemma_run_len_is(s, Class::Blank, 0);
    assert(s.skip(0) == s);
    lemma_run_len_is(s, Class::Solid, s.len());
    assert(s.take(s.len() as int) == s);
    let end = s.skip(s.len() as int);
    assert(words(end) == Seq::<Seq<char>>::empty());
    assert(words(s) == seq![s] + words(end));
}

/// Whatever is extracted is a tunnel URL, holds no whitespace, and stands in the line as it is.
pub proof fn law_extracted_url_is_sound(line: Seq<char>)
    ensures
        tunnel_url(line) matches Some(url) ==> {
            &&& is_tunnel_url(url)
            &&& all_in(url, Class::Solid)
            &&& occurs(line, url)
        },
{
    if first_url(words(line)) is Some {
        let url = first_url(words(line))->0;
        let k = lemma_first_url(words(line));
        let word = words(line)[k];
        let (a, b) = lemma_word_is_piece(line, k);
        let (c, d) = lemma_trimmed(word, Class::Wrapping);
        assert forall|i: int| 0 <= i < url.len() implies in_class(#[trigger] url[i], Class::Solid) by {
            assert(url[i] == word[c + i]);
        }
        assert(line.subrange(a + c, a + d) == url);
        assert(occurs_at(line, url, a + c));
    } else if embedded_url(line) is Some {
        let url = embedded_url(line)->0;
        lemma_position(line, "https://"@);
        let start = position(line, "https://"@)->0 as int;
        let rest = line.skip(start);
        let scheme = "https://"@;
        assert(rest.subrange(0, scheme.len() as int) == line.subrange(start, start + scheme.len()));
        lemma_scheme_is_link(rest);
        lemma_run_len(rest, Class::Link);
        reveal_strlit("https://");
        assert(url.subrange(0, scheme.len() as int) == rest.subrange(0, scheme.len() as int));
        assert forall|i: int| 0 <= i < url.len() implies in_class(#[trigger] url[i], Class::Solid) by {
            assert(url[i] == rest[i]);
        }
        assert(line.subrange(start, start + url.len()) == url);
        assert(occurs_at(line, url, start));
    }
}

/// A line without the scheme, or without a tunnel host, announces nothing.
pub proof fn law_no_url_without_scheme_and_host(line: Seq<char>)
    requires
        !occurs(line, "https://"@) || !names_tunnel_host(line),
    ensures
        tunnel_url(line) is None,
{
    law_extracted_url_is_sound(line);
    if tunnel_url(line) is Some {
        let url = tunnel_url(line)->0;
        let i = choose|i: int| occurs_at(line, url, i);
        assert(occurs(url, "https://"@));
        lemma_occurs_in_piece(line, i, i + url.len(), "https://"@);
        if occurs(url, ".trycloudflare.com"@) {
            lemma_occurs_in_piece(line, i, i + url.len(), ".trycloudflare.com"@);
        } else {
            lemma_occurs_in_piece(line, i, i + url.len(), ".cfargotunnel.com"@);
        }
    }
}

/// A tunnel URL that stands as a word of its own in the line, with or without quotation marks
/// and commas around it, is extracted without them, if no word before it is one.
pub proof fn law_announced_url_is_extracted(
    before: Seq<char>,
    opening: Seq<char>,
    url: Seq<char>,
    closing: Seq<char>,
    after: Seq<char>,
)
    requires
        before.len() == 0 || in_class(before.last(), Class::Blank),
        first_url(words(before)) is None,
        all_in(opening, Class::Wrapping),
        is_tunnel_url(url),
        all_in(url, Class::Solid),
        !in_class(url.last(), Class::Wrapping),
        all_in(closing, Class::Wrapping),
        after.len() == 0 || in_class(after[0], Class::Blank),
    ensures
        tunnel_url(before + (opening + url + closing + after)) == Some(url),
{
    let word = opening + url + closing;
    lemma_scheme_is_link(url);
    assert forall|i: int| 0 <= i < word.len() implies in_class(#[trigger] word[i], Class::Solid) by {
        if i < opening.len() {
            assert(word[i] == opening[i]);
        } else if i < opening.len() + url.len() {
            assert(word[i] == url[i - opening.len()]);
        } else {
            assert(word[i] == closing[i - opening.len() - url.len()]);
        }
    }
    let (a, b) = (opening.len() as int, (opening.len() + url.len()) as int);
    assert forall|i: int| 0 <= i < a implies in_class(#[trigger] word[i], Class::Wrapping) by {
        assert(word[i] == opening[i]);
    }
    assert forall|i: int| b <= i < word.len() implies in_class(#[trigger] word[i], Class::Wrapping) by {
        assert(word[i] == closing[i - b]);
    }
    assert(word[a] == url[0]);
    assert(word[b - 1] == url.last());
    lemma_trimmed_is(word, Class::Wrapping, a, b);
    assert(word.subrange(a, b) == url);
    lemma_single_word(word);
    lemma_words_concat(word, after);
    lemma_words_concat(before, word + after);
    lemma_first_url_concat(words(before), words(word + after));
    lemma_first_url_concat(seq![word], words(after));
    assert(seq![word][0] == word);
}

/// A link that is glued to other text is extracted up to whitespace or a quotation mark, if
/// the line holds no earlier scheme and no word of it is a tunnel URL.
pub proof fn law_embedded_url_is_extracted(before: Seq<char>, url: Seq<char>, after: Seq<char>)
    requires
        first_url(words(before + url + after)) is None,
        position(before + url + after, "https://"@) == Some(before.len()),
        names_tunnel_host(url),
        all_in(url, Class::Link),
        after.len() == 0 || !in_class(after[0], Class::Link),
    ensures
        tunnel_url(before + url + after) == Some(url),
{
    let line = before + url + after;
    let rest = line.skip(before.len() as int);
    assert(rest == url + after);
    assert forall|i: int| 0 <= i < url.len() implies in_class(#[trigger] rest[i], Class::Link) by {
        assert(rest[i] == url[i]);
    }
    if after.len() > 0 {
        assert(rest[url.len() as int] == after[0]);
    }
    lemma_run_len_is(rest, Class::Link, url.len());
    assert(rest.take(url.len() as int) == url);
}

/// `pat` stands in `s` exactly where `s` can be parted around it.
proof fn lemma_occurs_is_parting(s: Seq<char>, pat: Seq<char>)
    ensures
        occurs(s, pat) <==> exists|a: Seq<char>, b: Seq<char>| s == #[trigger] (a + pat + b),
        occurs_at(s, pat, 0) <==> exists|b: Seq<char>| s == #[trigger] (pat + b),
{
    if occurs(s, pat) {
        let i = choose|i: int| occurs_at(s, pat, i);
        let a = s.take(i);
        let b = s.skip(i + pat.len());
        assert(s =~= a + pat + b) by {
            assert(s.subrange(i, i + pat.len()) == pat);
            assert forall|k: int| i <= k < i + pat.len() implies s[k] == pat[k - i] by {
                assert(s.subrange(i, i + pat.len())[k - i] == s[k]);
            }
        }
    }
    if exists|a: Seq<char>, b: Seq<char>| s == #[trigger] (a + pat + b) {
        let (a, b) = choose|a: Seq<char>, b: Seq<char>| s == #[trigger] (a + pat + b);
        assert(s.subrange(a.len() as int, (a.len() + pat.len()) as int) =~= pat);
        assert(occurs_at(s, pat, a.len() as int));
    }
    if occurs_at(s, pat, 0) {
        let b = s.skip(pat.len() as int);
        assert(s =~= pat + b) by {
            assert forall|k: int| 0 <= k < pat.len() implies s[k] == pat[k] by {
                assert(s.subrange(0, pat.len() as int)[k] == s[k]);
            }
        }
    }
    if exists|b: Seq<char>| s == #[trigger] (pat + b) {
        let b = choose|b: Seq<char>| s == #[trigger] (pat + b);
        assert(s.subrange(0, pat.len() as int) =~= pat);
    }
}

/// In `before`, `opening`, `url`, `closing` and `after`, put together, `url` is announced: it
/// starts with `https://`, goes to a tunnel host and holds no whitespace, and there is nothing
/// but quotation marks and commas between it and the whitespace, or the end of the line, on
/// either side.
pub open spec fn announced(
    before: Seq<char>,
    opening: Seq<char>,
    url: Seq<char>,
    closing: Seq<char>,
    after: Seq<char>,
) -> bool {
    &&& before.len() == 0 || white_space(before.last())
    &&& forall|i: int|
        0 <= i < opening.len() ==> {
            let c = #[trigger] opening[i];
            c == '"' || c == '\'' || c == ','
        }
    &&& exists|b: Seq<char>| url == #[trigger] ("https://"@ + b)
    &&& {
        ||| exists|a: Seq<char>, b: Seq<char>| url == #[trigger] (a + ".trycloudflare.com"@ + b)
        ||| exists|a: Seq<char>, b: Seq<char>| url == #[trigger] (a + ".cfargotunnel.com"@ + b)
    }
    &&& forall|i: int| 0 <= i < url.len() ==> !white_space(#[trigger] url[i])
    &&& url.last() != '"' && url.last() != '\'' && url.last() != ','
    &&& forall|i: int|
        0 <= i < closing.len() ==> {
            let c = #[trigger] closing[i];
            c == '"' || c == '\'' || c == ','
        }
    &&& after.len() == 0 || white_space(after[0])
}

/// A line in which no URL is announced: it cannot be parted so that one is.
pub open spec fn announces_nothing(line: Seq<char>) -> bool {
    forall|a: Seq<char>, o: Seq<char>, u: Seq<char>, c: Seq<char>, z: Seq<char>| #[trigger]
        announced(a, o, u, c, z) ==> line != a + (o + u + c + z)
}

/// Only an announced URL is found among the words of a line.
proof fn lemma_word_url_is_announced(line: Seq<char>)
    requires
        announces_nothing(line),
    ensures
        first_url(words(line)) is None,
{
    if first_url(words(line)) is Some {
        let url = first_url(words(line))->0;
        let k = lemma_first_url(words(line));
        let word = words(line)[k];
        let (i, j) = lemma_word_is_piece(line, k);
        let (c, d) = lemma_trimmed(word, Class::Wrapping);
        lemma_scheme_is_link(url);
        lemma_occurs_is_parting(url, "https://"@);
        lemma_occurs_is_parting(url, ".trycloudflare.com"@);
        lemma_occurs_is_parting(url, ".cfargotunnel.com"@);
        let before = line.take(i);
        let opening = word.take(c);
        let closing = word.skip(d);
        let after = line.skip(j);
        assert forall|n: int| 0 <= n < opening.len() implies {
            let x = #[trigger] opening[n];
            x == '"' || x == '\'' || x == ','
        } by {
            assert(opening[n] == word[n]);
            assert(in_class(word[n], Class::Wrapping));
        }
        assert forall|n: int| 0 <= n < closing.len() implies {
            let x = #[trigger] closing[n];
            x == '"' || x == '\'' || x == ','
        } by {
            assert(closing[n] == word[d + n]);
            assert(in_class(word[d + n], Class::Wrapping));
        }
        assert forall|n: int| 0 <= n < url.len() implies !white_space(#[trigger] url[n]) by {
            assert(url[n] == word[c + n]);
            assert(in_class(word[c + n], Class::Solid));
        }
        assert(url.last() == word[d - 1]);
        if i > 0 {
            assert(before.last() == line[i - 1]);
        }
        if after.len() > 0 {
            assert(after[0] == line[j]);
        }
        lemma_parting_of_word(line, i, j, c, d);
        assert(announced(before, opening, url, closing, after));
    }
}

/// A line put together again from a word of it, parted in three, and what is around it.
proof fn lemma_parting_of_word(line: Seq<char>, i: int, j: int, c: int, d: int)
    requires
        0 <= i <= j <= line.len(),
        0 <= c <= d <= j - i,
    ensures
        ({
            let word = line.subrange(i, j);
            line == line.take(i) + (word.take(c) + word.subrange(c, d) + word.skip(d) + line.skip(
                j,
            ))
        }),
{
    let word = line.subrange(i, j);
    assert(word =~= word.take(c) + word.subrange(c, d) + word.skip(d));
    assert(line =~= line.take(i) + (word + line.skip(j)));
}

/// Whatever is extracted starts with `https://`, contains `.trycloudflare.com` or
/// `.cfargotunnel.com`, holds no whitespace, and stands in the line as it is.
pub proof fn law_extracted_url_goes_to_a_tunnel_host(line: Seq<char>)
    ensures
        tunnel_url(line) matches Some(url) ==> {
            &&& exists|b: Seq<char>| url == #[trigger] ("https://"@ + b)
            &&& {
                ||| exists|a: Seq<char>, b: Seq<char>|
                    url == #[trigger] (a + ".trycloudflare.com"@ + b)
                ||| exists|a: Seq<char>, b: Seq<char>|
                    url == #[trigger] (a + ".cfargotunnel.com"@ + b)
            }
            &&& forall|i: int| 0 <= i < url.len() ==> !white_space(#[trigger] url[i])
            &&& exists|a: Seq<char>, b: Seq<char>| line == #[trigger] (a + url + b)
        },
{
    law_extracted_url_is_sound(line);
    if tunnel_url(line) is Some {
        let url = tunnel_url(line)->0;
        lemma_occurs_is_parting(url, "https://"@);
        lemma_occurs_is_parting(url, ".trycloudflare.com"@);
        lemma_occurs_is_parting(url, ".cfargotunnel.com"@);
        lemma_occurs_is_parting(line, url);
        assert forall|i: int| 0 <= i < url.len() implies !white_space(#[trigger] url[i]) by {
            assert(in_class(url[i], Class::Solid));
        }
    }
}

/// A line that contains neither `.trycloudflare.com` nor `.cfargotunnel.com`, or does not
/// contain `https://`, yields nothing.
pub proof fn law_other_links_are_passed_over(line: Seq<char>)
    requires
        ({
            &&& forall|a: Seq<char>, b: Seq<char>| line != #[trigger] (a + ".trycloudflare.com"@ + b)
            &&& forall|a: Seq<char>, b: Seq<char>| line != #[trigger] (a + ".cfargotunnel.com"@ + b)
        }) || (forall|a: Seq<char>, b: Seq<char>| line != #[trigger] (a + "https://"@ + b)),
    ensures
        tunnel_url(line) is None,
{
    lemma_occurs_is_parting(line, "https://"@);
    lemma_occurs_is_parting(line, ".trycloudflare.com"@);
    lemma_occurs_is_parting(line, ".cfargotunnel.com"@);
    law_no_url_without_scheme_and_host(line);
}

/// The first URL that a line announces is what it yields, whole and without the quotation
/// marks and commas around it.
pub proof fn law_first_announced_url_is_extracted(
    before: Seq<char>,
    opening: Seq<char>,
    url: Seq<char>,
    closing: Seq<char>,
    after: Seq<char>,
)
    requires
        announced(before, opening, url, closing, after),
        announces_nothing(before),
    ensures
        tunnel_url(before + (opening + url + closing + after)) == Some(url),
{
    lemma_word_url_is_announced(before);
    lemma_occurs_is_parting(url, "https://"@);
    lemma_occurs_is_parting(url, ".trycloudflare.com"@);
    lemma_occurs_is_parting(url, ".cfargotunnel.com"@);
    law_announced_url_is_extracted(before, opening, url, closing, after);
}

/// A URL that stands in a line between whitespace, with or without quotation marks and commas
/// around it, is what the line yields, whole and without them, if the text before it contains
/// no `https://`, or neither of the two hosts.
pub proof fn law_url_between_spaces_is_extracted(
    before: Seq<char>,
    opening: Seq<char>,
    path: Seq<char>,
    url: Seq<char>,
    closing: Seq<char>,
    after: Seq<char>,
)
    requires
        before.len() == 0 || white_space(before.last()),
        ({
            &&& forall|a: Seq<char>, b: Seq<char>|
                before != #[trigger] (a + ".trycloudflare.com"@ + b)
            &&& forall|a: Seq<char>, b: Seq<char>|
                before != #[trigger] (a + ".cfargotunnel.com"@ + b)
        }) || (forall|a: Seq<char>, b: Seq<char>| before != #[trigger] (a + "https://"@ + b)),
        forall|i: int|
            0 <= i < opening.len() ==> {
                let c = #[trigger] opening[i];
                c == '"' || c == '\'' || c == ','
            },
        url == "https://"@ + path,
        ({
            ||| exists|a: Seq<char>, b: Seq<char>|
                url == #[trigger] (a + ".trycloudflare.com"@ + b)
            ||| exists|a: Seq<char>, b: Seq<char>| url == #[trigger] (a + ".cfargotunnel.com"@ + b)
        }),
        forall|i: int| 0 <= i < url.len() ==> !white_space(#[trigger] url[i]),
        url.last() != '"' && url.last() != '\'' && url.last() != ',',
        forall|i: int|
            0 <= i < closing.len() ==> {
                let c = #[trigger] closing[i];
                c == '"' || c == '\'' || c == ','
            },
        after.len() == 0 || white_space(after[0]),
    ensures
        tunnel_url(before + (opening + url + closing + after)) == Some(url),
{
    law_other_links_are_passed_over(before);
    assert(first_url(words(before)) is None);
    lemma_occurs_is_parting(url, "https://"@);
    lemma_occurs_is_parting(url, ".trycloudflare.com"@);
    lemma_occurs_is_parting(url, ".cfargotunnel.com"@);
    law_announced_url_is_extracted(before, opening, url, closing, after);
}

/// A line that announces nothing yields the link at its first `https://`, up to whitespace or a
/// quotation mark and no further, if that contains one of the two hosts, and else nothing.
pub proof fn law_first_link_is_extracted(before: Seq<char>, link: Seq<char>, after: Seq<char>)
    requires
        announces_nothing(before + link + after),
        exists|b: Seq<char>| link == #[trigger] ("https://"@ + b),
        forall|a: Seq<char>, b: Seq<char>|
            before + link + after == #[trigger] (a + "https://"@ + b) ==> before.len() <= a.len(),
        forall|i: int|
            0 <= i < link.len() ==> {
                let c = #[trigger] link[i];
                !white_space(c) && c != '"' && c != '\''
            },
        after.len() == 0 || white_space(after[0]) || after[0] == '"' || after[0] == '\'',
    ensures
        ({
            ||| exists|a: Seq<char>, b: Seq<char>|
                link == #[trigger] (a + ".trycloudflare.com"@ + b)
            ||| exists|a: Seq<char>, b: Seq<char>|
                link == #[trigger] (a + ".cfargotunnel.com"@ + b)
        }) ==> tunnel_url(before + link + after) == Some(link),
        ({
            &&& forall|a: Seq<char>, b: Seq<char>|
                link != #[trigger] (a + ".trycloudflare.com"@ + b)
            &&& forall|a: Seq<char>, b: Seq<char>|
                link != #[trigger] (a + ".cfargotunnel.com"@ + b)
        }) ==> tunnel_url(before + link + after) is None,
{
    let line = before + link + after;
    let scheme = "https://"@;
    lemma_word_url_is_announced(line);
    lemma_occurs_is_parting(link, ".trycloudflare.com"@);
    lemma_occurs_is_parting(link, ".cfargotunnel.com"@);
    let start = before.len() as int;
    let tail = choose|b: Seq<char>| link == #[trigger] (scheme + b);
    assert(line.subrange(start, start + scheme.len()) =~= scheme);
    assert forall|j: int| 0 <= j < start implies !occurs_at(line, scheme, j) by {
        if occurs_at(line, scheme, j) {
            let a = line.take(j);
            let b = line.skip(j + scheme.len());
            assert forall|k: int| j <= k < j + scheme.len() implies line[k] == scheme[k - j] by {
                assert(line.subrange(j, j + scheme.len())[k - j] == line[k]);
            }
            assert(line =~= a + scheme + b);
        }
    }
    lemma_position_is(line, scheme, before.len());
    let rest = line.skip(start);
    assert forall|i: int| 0 <= i < link.len() implies in_class(#[trigger] rest[i], Class::Link) by {
        assert(rest[i] == link[i]);
    }
    if after.len() > 0 {
        assert(rest[link.len() as int] == after[0]);
    }
    lemma_run_len_is(rest, Class::Link, link.len());
    assert(rest.take(link.len() as int) =~= link);
}

/// A link that is glued to the text before it, where the line has no other `https://`, is what
/// the line yields, up to whitespace or a quotation mark and no further, if it contains one of
/// the two hosts; and else nothing is.
pub proof fn law_glued_link_is_extracted(
    before: Seq<char>,
    path: Seq<char>,
    link: Seq<char>,
    after: Seq<char>,
)
    requires
        before.len() > 0,
        !white_space(before.last()),
        before.last() != '"' && before.last() != '\'' && before.last() != ',',
        link == "https://"@ + path,
        forall|a: Seq<char>, b: Seq<char>|
            before + link + after == #[trigger] (a + "https://"@ + b) ==> before.len() == a.len(),
        forall|i: int|
            0 <= i < link.len() ==> {
                let c = #[trigger] link[i];
                !white_space(c) && c != '"' && c != '\''
            },
        after.len() == 0 || white_space(after[0]) || after[0] == '"' || after[0] == '\'',
    ensures
        ({
            ||| exists|a: Seq<char>, b: Seq<char>|
                link == #[trigger] (a + ".trycloudflare.com"@ + b)
            ||| exists|a: Seq<char>, b: Seq<char>|
                link == #[trigger] (a + ".cfargotunnel.com"@ + b)
        }) ==> tunnel_url(before + link + after) == Some(link),
        ({
            &&& forall|a: Seq<char>, b: Seq<char>|
                link != #[trigger] (a + ".trycloudflare.com"@ + b)
            &&& forall|a: Seq<char>, b: Seq<char>|
                link != #[trigger] (a + ".cfargotunnel.com"@ + b)
        }) ==> tunnel_url(before + link + after) is None,
{
    let line = before + link + after;
    assert forall|a: Seq<char>, o: Seq<char>, u: Seq<char>, c: Seq<char>, z: Seq<char>| #[trigger]
        announced(a, o, u, c, z) implies line != a + (o + u + c + z) by {
        if line == a + (o + u + c + z) {
            let tail = choose|b: Seq<char>| u == #[trigger] ("https://"@ + b);
            assert(a + (o + u + c + z) =~= (a + o) + "https://"@ + (tail + c + z));
            assert((a + o).len() == before.len());
            assert(before =~= a + o) by {
                assert forall|i: int| 0 <= i < before.len() implies before[i] == (a + o)[i] by {
                    assert(line[i] == before[i]);
                    assert((a + (o + u + c + z))[i] == (a + o)[i]);
                }
            }
            if o.len() > 0 {
                assert(before.last() == o[o.len() - 1]);
            } else {
                assert(before =~= a);
            }
        }
    }
    law_first_link_is_extracted(before, link, after);
}

} // verus!
