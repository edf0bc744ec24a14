use crate::text::push_char;
use vstd::prelude::*;
use vstd::string::{StrSliceExecFns, StringExecFns};

verus! {

/// What one character becomes in escaped HTML text: the five characters that
/// carry meaning in HTML are replaced by entities, all others stand as they
/// are.
pub open spec fn escape_char(c: char) -> Seq<char> {
    if c == '&' {
        "&amp;"@
    } else if c == '"' {
        "&quot;"@
    } else if c == '\'' {
        "&#x27;"@
    } else if c == '<' {
        "&lt;"@
    } else if c == '>' {
        "&gt;"@
    } else {
        seq![c]
    }
}

/// A whole text with every character escaped.
pub open spec fn escape_seq(s: Seq<char>) -> Seq<char>
    decreases s.len(),
{
    if s.len() == 0 {
        Seq::<char>::empty()
    } else {
        escape_seq(s.drop_last()) + escape_char(s.last())
    }
}

/// Escapes every HTML-significant character of a display name, so that the
/// name can stand in rendered markup without being read as markup.
pub fn sanitize_html_string(s: &str) -> (r: String)
    ensures
        r@ == escape_seq(s@),
{
    let slen: usize = s.unicode_len();
    let mut out: String = String::new();
    let mut i: usize = 0;
    while i < slen
        invariant
            i <= slen,
            slen == s@.len(),
            out@ =~= escape_seq(s@.take(i as int)),
        decreases slen - i,
    {
        let ghost pre = out@;
        let c: char = s.get_char(i);
        if c == '&' {
            out.append("&amp;");
        } else if c == '"' {
            out.append("&quot;");
        } else if c == '\'' {
            out.append("&#x27;");
        } else if c == '<' {
            out.append("&lt;");
        } else if c == '>' {
            out.append("&gt;");
        } else {
            push_char(&mut out, c);
            assert(out@ =~= pre + seq![c]);
        }
        proof {
            assert(s@.take(i + 1).drop_last() =~= s@.take(i as int));
            assert(s@.take(i + 1).last() == s@[i as int]);
            assert(out@ =~= escape_seq(s@.take(i as int)) + escape_char(s@[i as int]));
        }
        i = i + 1;
    }
    proof {
        assert(s@.take(slen as int) =~= s@);
    }
    out
}

/// Holds of text in which none of `<`, `>`, `"`, `'` occurs, so nothing in it
/// can open or close a tag or leave a quoted attribute.
pub open spec fn no_markup_chars(s: Seq<char>) -> bool {
    forall|j: int|
        0 <= j < s.len() ==> s[j] != '<' && s[j] != '>' && s[j] != '"' && s[j] != '\''
}

/// Escaped text never holds a raw `<`, `>`, `"` or `'`: whatever name a file
/// carries, the escaped form cannot inject markup into the page.
pub proof fn lemma_escape_no_markup(s: Seq<char>)
    ensures
        no_markup_chars(escape_seq(s)),
    decreases s.len(),
{
    if s.len() != 0 {
        lemma_escape_no_markup(s.drop_last());
        let c = s.last();
        reveal_strlit("&amp;");
        reveal_strlit("&quot;");
        reveal_strlit("&#x27;");
        reveal_strlit("&lt;");
        reveal_strlit("&gt;");
        assert(no_markup_chars(escape_char(c)));
        assert forall|j: int| 0 <= j < escape_seq(s).len() implies escape_seq(s)[j] != '<'
            && escape_seq(s)[j] != '>' && escape_seq(s)[j] != '"' && escape_seq(s)[j]
            != '\'' by {
            let pre = escape_seq(s.drop_last());
            if j < pre.len() {
                assert(escape_seq(s)[j] == pre[j]);
            } else {
                assert(escape_seq(s)[j] == escape_char(c)[j - pre.len()]);
            }
        }
    }
}

/// Reads escaped text back: each of the five entities becomes its character
/// again, everything else stands as it is.
pub open spec fn unescape(t: Seq<char>) -> Seq<char>
    decreases t.len(),
{
    if t.len() == 0 {
        Seq::<char>::empty()
    } else if t.len() >= 5 && t.take(5) == "&amp;"@ {
        seq!['&'] + unescape(t.skip(5))
    } else if t.len() >= 6 && t.take(6) == "&quot;"@ {
        seq!['"'] + unescape(t.skip(6))
    } else if t.len() >= 6 && t.take(6) == "&#x27;"@ {
        seq!['\''] + unescape(t.skip(6))
    } else if t.len() >= 4 && t.take(4) == "&lt;"@ {
        seq!['<'] + unescape(t.skip(4))
    } else if t.len() >= 4 && t.take(4) == "&gt;"@ {
        seq!['>'] + unescape(t.skip(4))
    } else {
        seq![t[0]] + unescape(t.drop_first())
    }
}

/// `escape_seq` taken apart at the front instead of the back.
proof fn lemma_escape_seq_cons(s: Seq<char>)
    requires
        s.len() > 0,
    ensures
        escape_seq(s) == escape_char(s[0]) + escape_seq(s.drop_first()),
    decreases s.len(),
{
    if s.len() == 1 {
        assert(s.drop_last() =~= Seq::<char>::empty());
        assert(s.drop_first() =~= Seq::<char>::empty());
        assert(escape_seq(s) =~= escape_char(s[0]) + escape_seq(s.drop_first()));
    } else {
        lemma_escape_seq_cons(s.drop_last());
        assert(s.drop_last()[0] == s[0]);
        assert(s.drop_last().drop_first() =~= s.drop_first().drop_last());
        assert(s.drop_first().last() == s.last());
        assert(escape_seq(s.drop_first()) == escape_seq(s.drop_first().drop_last()) + escape_char(
            s.last(),
        ));
        assert(escape_seq(s) =~= escape_char(s[0]) + escape_seq(s.drop_first()));
    }
}

/// A claimed prefix fails where one character differs.
proof fn lemma_prefix_differs(t: Seq<char>, p: Seq<char>, i: int)
    requires
        0 <= i < p.len(),
        i < t.len(),
        t[i] != p[i],
    ensures
        !(p.len() <= t.len() && t.take(p.len() as int) == p),
{
    if p.len() <= t.len() && t.take(p.len() as int) == p {
        assert(t.take(p.len() as int)[i] == t[i]);
    }
}

/// Escaping loses nothing: reading the escaped text back yields the original
/// name, character for character.
pub proof fn lemma_escape_roundtrip(s: Seq<char>)
    ensures
        unescape(escape_seq(s)) == s,
    decreases s.len(),
{
    reveal_strlit("&amp;");
    reveal_strlit("&quot;");
    reveal_strlit("&#x27;");
    reveal_strlit("&lt;");
    reveal_strlit("&gt;");
    if s.len() > 0 {
        lemma_escape_roundtrip(s.drop_first());
        lemma_escape_seq_cons(s);
        let c = s[0];
        let t = escape_seq(s);
        let rest = escape_seq(s.drop_first());
        assert(t == escape_char(c) + rest);
        if c == '&' {
            assert(t.take(5) =~= "&amp;"@);
            assert(t.skip(5) =~= rest);
            assert(unescape(t) == seq!['&'] + unescape(rest));
            assert(seq!['&'] + s.drop_first() =~= s);
        } else if c == '"' {
            assert(t[1] == 'q');
            lemma_prefix_differs(t, "&amp;"@, 1);
            assert(t.take(6) =~= "&quot;"@);
            assert(t.skip(6) =~= rest);
            assert(unescape(t) == seq!['"'] + unescape(rest));
            assert(seq!['"'] + s.drop_first() =~= s);
        } else if c == '\'' {
            assert(t[1] == '#');
            lemma_prefix_differs(t, "&amp;"@, 1);
            lemma_prefix_differs(t, "&quot;"@, 1);
            assert(t.take(6) =~= "&#x27;"@);
            assert(t.skip(6) =~= rest);
            assert(unescape(t) == seq!['\''] + unescape(rest));
            assert(seq!['\''] + s.drop_first() =~= s);
        } else if c == '<' {
            assert(t[1] == 'l');
            lemma_prefix_differs(t, "&amp;"@, 1);
            lemma_prefix_differs(t, "&quot;"@, 1);
            lemma_prefix_differs(t, "&#x27;"@, 1);
            assert(t.take(4) =~= "&lt;"@);
            assert(t.skip(4) =~= rest);
            assert(unescape(t) == seq!['<'] + unescape(rest));
            assert(seq!['<'] + s.drop_first() =~= s);
        } else if c == '>' {
            assert(t[1] == 'g');
            lemma_prefix_differs(t, "&amp;"@, 1);
            lemma_prefix_differs(t, "&quot;"@, 1);
            lemma_prefix_differs(t, "&#x27;"@, 1);
            lemma_prefix_differs(t, "&lt;"@, 1);
            assert(t.take(4) =~= "&gt;"@);
            assert(t.skip(4) =~= rest);
            assert(unescape(t) == seq!['>'] + unescape(rest));
            assert(seq!['>'] + s.drop_first() =~= s);
        } else {
            assert(t[0] == c && c != '&');
            lemma_prefix_differs(t, "&amp;"@, 0);
            lemma_prefix_differs(t, "&quot;"@, 0);
            lemma_prefix_differs(t, "&#x27;"@, 0);
            lemma_prefix_differs(t, "&lt;"@, 0);
            lemma_prefix_differs(t, "&gt;"@, 0);
            assert(t.drop_first() =~= rest);
            assert(unescape(t) == seq![t[0]] + unescape(rest));
            assert(seq![c] + s.drop_first() =~= s);
        }
    }
}

/// The character for one hexadecimal digit, upper case.
pub open spec fn hex_char(d: nat) -> char {
    if d < 10 {
        crate::text::digit_char(d)
    } else if d == 10 {
        'A'
    } else if d == 11 {
        'B'
    } else if d == 12 {
        'C'
    } else if d == 13 {
        'D'
    } else if d == 14 {
        'E'
    } else {
        'F'
    }
}

/// Characters that stand in a browse URL as they are: letters, digits, the
/// unreserved marks, and the path separator.
pub open spec fn is_url_plain(c: char) -> bool {
    ('a' <= c && c <= 'z') || ('A' <= c && c <= 'Z') || ('0' <= c && c <= '9') || c == '-' || c
        == '_' || c == '.' || c == '~' || c == '/'
}

/// What one character becomes in a browse URL: plain characters stand as they
/// are, every other ASCII character becomes a percent escape, and characters
/// beyond ASCII stand as they are.
pub open spec fn url_escape_char(c: char) -> Seq<char> {
    if is_url_plain(c) || (c as u32) >= 128 {
        seq![c]
    } else {
        seq!['%', hex_char(((c as u32) / 16) as nat), hex_char(((c as u32) % 16) as nat)]
    }
}

/// A whole path with every character made URL-safe.
pub open spec fn url_escape(s: Seq<char>) -> Seq<char>
    decreases s.len(),
{
    if s.len() == 0 {
        Seq::<char>::empty()
    } else {
        url_escape(s.drop_last()) + url_escape_char(s.last())
    }
}

fn hex_char_exec(d: u32) -> (c: char)
    requires
        d < 16,
    ensures
        c == hex_char(d as nat),
{
    if d == 0 {
        '0'
    } else if d == 1 {
        '1'
    } else if d == 2 {
        '2'
    } else if d == 3 {
        '3'
    } else if d == 4 {
        '4'
    } else if d == 5 {
        '5'
    } else if d == 6 {
        '6'
    } else if d == 7 {
        '7'
    } else if d == 8 {
        '8'
    } else if d == 9 {
        '9'
    } else if d == 10 {
        'A'
    } else if d == 11 {
        'B'
    } else if d == 12 {
        'C'
    } else if d == 13 {
        'D'
    } else if d == 14 {
        'E'
    } else {
        'F'
    }
}

fn is_url_plain_exec(c: char) -> (r: bool)
    ensures
        r == is_url_plain(c),
{
    ('a' <= c && c <= 'z') || ('A' <= c && c <= 'Z') || ('0' <= c && c <= '9') || c == '-' || c
        == '_' || c == '.' || c == '~' || c == '/'
}

/// Makes a relative path safe to stand in a browse URL, as the routing layer
/// of the surrounding server would.
pub fn url_escape_string(s: &str) -> (r: String)
    ensures
        r@ == url_escape(s@),
{
    let slen: usize = s.unicode_len();
    let mut out: String = String::new();
    let mut i: usize = 0;
    while i < slen
        invariant
            i <= slen,
            slen == s@.len(),
            out@ =~= url_escape(s@.take(i as int)),
        decreases slen - i,
    {
        let ghost pre = out@;
        let c: char = s.get_char(i);
        if is_url_plain_exec(c) {
            push_char(&mut out, c);
            assert(out@ =~= pre + seq![c]);
        } else {
            let code: u32 = c as u32;
            if code >= 128 {
                push_char(&mut out, c);
                assert(out@ =~= pre + seq![c]);
            } else {
                push_char(&mut out, '%');
                push_char(&mut out, hex_char_exec(code / 16));
                push_char(&mut out, hex_char_exec(code % 16));
                assert(out@ =~= pre + seq![
                    '%',
                    hex_char(((c as u32) / 16) as nat),
                    hex_char(((c as u32) % 16) as nat),
                ]);
            }
        }
        proof {
            assert(s@.take(i + 1).drop_last() =~= s@.take(i as int));
            assert(s@.take(i + 1).last() == s@[i as int]);
            assert(out@ =~= url_escape(s@.take(i as int)) + url_escape_char(s@[i as int]));
        }
        i = i + 1;
    }
    proof {
        assert(s@.take(slen as int) =~= s@);
    }
    out
}

/// A URL-escaped path holds none of the characters that carry meaning in
/// HTML: whatever name a file carries, the link target cannot break out of
/// its attribute or open a tag.
pub proof fn lemma_url_escape_no_markup(s: Seq<char>)
    ensures
        no_markup_chars(url_escape(s)),
        forall|j: int| 0 <= j < url_escape(s).len() ==> url_escape(s)[j] != '&',
    decreases s.len(),
{
    if s.len() != 0 {
        lemma_url_escape_no_markup(s.drop_last());
        let c = s.last();
        let app = url_escape_char(c);
        assert forall|o: int| 0 <= o < app.len() implies app[o] != '<' && app[o] != '>' && app[o]
            != '"' && app[o] != '\'' && app[o] != '&' by {
            if is_url_plain(c) {
            } else if (c as u32) >= 128 {
                assert(('<' as u32) < 128 && ('>' as u32) < 128 && ('"' as u32) < 128 && ('\''
                    as u32) < 128 && ('&' as u32) < 128);
            }
        }
        assert forall|j: int| 0 <= j < url_escape(s).len() implies url_escape(s)[j] != '<'
            && url_escape(s)[j] != '>' && url_escape(s)[j] != '"' && url_escape(s)[j] != '\''
            && url_escape(s)[j] != '&' by {
            let pre = url_escape(s.drop_last());
            if j < pre.len() {
                assert(url_escape(s)[j] == pre[j]);
            } else {
                assert(url_escape(s)[j] == app[j - pre.len()]);
            }
        }
    }
}

/// At position `j` of `s` stands one of the five entities, whole.
pub open spec fn entity_starts_at(s: Seq<char>, j: int) -> bool {
    ||| (j + 5 <= s.len() && s.subrange(j, j + 5) == "&amp;"@)
    ||| (j + 6 <= s.len() && s.subrange(j, j + 6) == "&quot;"@)
    ||| (j + 6 <= s.len() && s.subrange(j, j + 6) == "&#x27;"@)
    ||| (j + 4 <= s.len() && s.subrange(j, j + 4) == "&lt;"@)
    ||| (j + 4 <= s.len() && s.subrange(j, j + 4) == "&gt;"@)
}

/// Holds of text in which every `&` begins an entity, so no ampersand of the
/// original name survives unescaped.
pub open spec fn amp_only_in_entities(s: Seq<char>) -> bool {
    forall|j: int| 0 <= j < s.len() && s[j] == '&' ==> entity_starts_at(s, j)
}

/// In escaped text, every `&` is the first character of one of the five
/// entities; together with `lemma_escape_no_markup`, none of the five
/// HTML-significant characters of a name reaches the page raw.
pub proof fn lemma_escape_amp_entities(s: Seq<char>)
    ensures
        amp_only_in_entities(escape_seq(s)),
    decreases s.len(),
{
    reveal_strlit("&amp;");
    reveal_strlit("&quot;");
    reveal_strlit("&#x27;");
    reveal_strlit("&lt;");
    reveal_strlit("&gt;");
    if s.len() != 0 {
        lemma_escape_amp_entities(s.drop_last());
        let pre = escape_seq(s.drop_last());
        let whole = escape_seq(s);
        let c = s.last();
        let app = escape_char(c);
        assert(whole == pre + app);
        assert forall|j: int| 0 <= j < whole.len() && whole[j] == '&' implies entity_starts_at(
            whole,
            j,
        ) by {
            if j < pre.len() {
                assert(pre[j] == '&');
                assert(entity_starts_at(pre, j));
                if j + 5 <= pre.len() && pre.subrange(j, j + 5) == "&amp;"@ {
                    assert(whole.subrange(j, j + 5) =~= pre.subrange(j, j + 5));
                } else if j + 6 <= pre.len() && pre.subrange(j, j + 6) == "&quot;"@ {
                    assert(whole.subrange(j, j + 6) =~= pre.subrange(j, j + 6));
                } else if j + 6 <= pre.len() && pre.subrange(j, j + 6) == "&#x27;"@ {
                    assert(whole.subrange(j, j + 6) =~= pre.subrange(j, j + 6));
                } else if j + 4 <= pre.len() && pre.subrange(j, j + 4) == "&lt;"@ {
                    assert(whole.subrange(j, j + 4) =~= pre.subrange(j, j + 4));
                } else {
                    assert(whole.subrange(j, j + 4) =~= pre.subrange(j, j + 4));
                }
            } else {
                let o = j - pre.len();
                assert(whole[j] == app[o]);
                if c == '&' {
                    assert(app == "&amp;"@);
                    assert(o == 0);
                    assert(whole.subrange(j, j + 5) =~= app);
                } else if c == '"' {
                    assert(app == "&quot;"@);
                    assert(o == 0);
                    assert(whole.subrange(j, j + 6) =~= app);
                } else if c == '\'' {
                    assert(app == "&#x27;"@);
                    assert(o == 0);
                    assert(whole.subrange(j, j + 6) =~= app);
                } else if c == '<' {
                    assert(app == "&lt;"@);
                    assert(o == 0);
                    assert(whole.subrange(j, j + 4) =~= app);
                } else if c == '>' {
                    assert(app == "&gt;"@);
                    assert(o == 0);
                    assert(whole.subrange(j, j + 4) =~= app);
                } else {
                    assert(app == seq![c]);
                    assert(false);
                }
            }
        }
    }
}

} // verus!
