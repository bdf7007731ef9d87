//! Reading text out of XML and HTML fragments: entity decoding and tag
//! stripping.
use vstd::prelude::*;
use crate::text::{
    append_chars, collapse_whitespace, collapse_ws, find, find_from, replace_all,
    replace_chars,
};

verus! {

/// `&lt;`
pub open spec fn ent_lt() -> Seq<char> {
    seq!['&', 'l', 't', ';']
}

/// `&gt;`
pub open spec fn ent_gt() -> Seq<char> {
    seq!['&', 'g', 't', ';']
}

/// `&amp;`
pub open spec fn ent_amp() -> Seq<char> {
    seq!['&', 'a', 'm', 'p', ';']
}

/// `&quot;`
pub open spec fn ent_quot() -> Seq<char> {
    seq!['&', 'q', 'u', 'o', 't', ';']
}

/// `&apos;`
pub open spec fn ent_apos() -> Seq<char> {
    seq!['&', 'a', 'p', 'o', 's', ';']
}

/// `&#10;`
pub open spec fn ent_nl_dec() -> Seq<char> {
    seq!['&', '#', '1', '0', ';']
}

/// `&#xA;`
pub open spec fn ent_nl_hex() -> Seq<char> {
    seq!['&', '#', 'x', 'A', ';']
}

/// `&nbsp;`
pub open spec fn ent_nbsp() -> Seq<char> {
    seq!['&', 'n', 'b', 's', 'p', ';']
}

/// `&hellip;`
pub open spec fn ent_hellip() -> Seq<char> {
    seq!['&', 'h', 'e', 'l', 'l', 'i', 'p', ';']
}

/// `&#x27;`
pub open spec fn ent_apos_hex() -> Seq<char> {
    seq!['&', '#', 'x', '2', '7', ';']
}

/// `&#39;`
pub open spec fn ent_apos_dec() -> Seq<char> {
    seq!['&', '#', '3', '9', ';']
}

/// The XML entity decoding applied to feed text: the replacements of
/// `&lt;`, `&gt;`, `&amp;`, `&quot;`, `&apos;`, `&#10;` and `&#xA;` done one
/// after the other, in this order, each over the whole text.
pub open spec fn decode_xml(s: Seq<char>) -> Seq<char> {
    let a = replace_all(s, ent_lt(), seq!['<']);
    let b = replace_all(a, ent_gt(), seq!['>']);
    let c = replace_all(b, ent_amp(), seq!['&']);
    let d = replace_all(c, ent_quot(), seq!['"']);
    let e = replace_all(d, ent_apos(), seq!['\'']);
    let f = replace_all(e, ent_nl_dec(), seq![' ']);
    replace_all(f, ent_nl_hex(), seq![' '])
}

/// `decode_xml`, then `&nbsp;`, `&hellip;`, `&#x27;` and `&#39;` replaced in
/// turn.
pub open spec fn decode_html(s: Seq<char>) -> Seq<char> {
    let a = replace_all(decode_xml(s), ent_nbsp(), seq![' ']);
    let b = replace_all(a, ent_hellip(), seq!['.', '.', '.']);
    let c = replace_all(b, ent_apos_hex(), seq!['\'']);
    replace_all(c, ent_apos_dec(), seq!['\''])
}

fn replace_lit(s: &Vec<char>, pat: Vec<char>, rep: Vec<char>) -> (r: Vec<char>)
    requires
        pat.len() > 0,
    ensures
        r@ == replace_all(s@, pat@, rep@),
{
    replace_chars(s, &pat, &rep)
}

/// `decode_xml(s)`.
pub fn decode_xml_chars(s: &Vec<char>) -> (r: Vec<char>)
    ensures
        r@ == decode_xml(s@),
{
    let p1 = vec!['&', 'l', 't', ';'];
    let r1 = vec!['<'];
    assert(p1@ =~= ent_lt() && r1@ =~= seq!['<']);
    let a = replace_lit(s, p1, r1);
    let p2 = vec!['&', 'g', 't', ';'];
    let r2 = vec!['>'];
    assert(p2@ =~= ent_gt() && r2@ =~= seq!['>']);
    let b = replace_lit(&a, p2, r2);
    let p3 = vec!['&', 'a', 'm', 'p', ';'];
    let r3 = vec!['&'];
    assert(p3@ =~= ent_amp() && r3@ =~= seq!['&']);
    let c = replace_lit(&b, p3, r3);
    let p4 = vec!['&', 'q', 'u', 'o', 't', ';'];
    let r4 = vec!['"'];
    assert(p4@ =~= ent_quot() && r4@ =~= seq!['"']);
    let d = replace_lit(&c, p4, r4);
    let p5 = vec!['&', 'a', 'p', 'o', 's', ';'];
    let r5 = vec!['\''];
    assert(p5@ =~= ent_apos() && r5@ =~= seq!['\'']);
    let e = replace_lit(&d, p5, r5);
    let p6 = vec!['&', '#', '1', '0', ';'];
    let r6 = vec![' '];
    assert(p6@ =~= ent_nl_dec() && r6@ =~= seq![' ']);
    let f = replace_lit(&e, p6, r6);
    let p7 = vec!['&', '#', 'x', 'A', ';'];
    let r7 = vec![' '];
    assert(p7@ =~= ent_nl_hex() && r7@ =~= seq![' ']);
    replace_lit(&f, p7, r7)
}

/// Decodes the XML entities of feed text (`decode_xml`).
pub fn decode_xml_entities(input: &str) -> (r: String)
    ensures
        r@ == decode_xml(input@),
{
    let v = crate::text::chars_of(input);
    let d = decode_xml_chars(&v);
    crate::text::string_of(&d)
}

/// `decode_html(s)`.
pub fn decode_html_chars(s: &Vec<char>) -> (r: Vec<char>)
    ensures
        r@ == decode_html(s@),
{
    let x = decode_xml_chars(s);
    let p1 = vec!['&', 'n', 'b', 's', 'p', ';'];
    let r1 = vec![' '];
    assert(p1@ =~= ent_nbsp() && r1@ =~= seq![' ']);
    let a = replace_lit(&x, p1, r1);
    let p2 = vec!['&', 'h', 'e', 'l', 'l', 'i', 'p', ';'];
    let r2 = vec!['.', '.', '.'];
    assert(p2@ =~= ent_hellip() && r2@ =~= seq!['.', '.', '.']);
    let b = replace_lit(&a, p2, r2);
    let p3 = vec!['&', '#', 'x', '2', '7', ';'];
    let r3 = vec!['\''];
    assert(p3@ =~= ent_apos_hex() && r3@ =~= seq!['\'']);
    let c = replace_lit(&b, p3, r3);
    let p4 = vec!['&', '#', '3', '9', ';'];
    let r4 = vec!['\''];
    assert(p4@ =~= ent_apos_dec() && r4@ =~= seq!['\'']);
    replace_lit(&c, p4, r4)
}

// ---------------------------------------------------------------------------
// Stripping tags (`<[^>]+>` replaced by nothing)
// ---------------------------------------------------------------------------

/// The index of the `>` that closes a tag opening at `i`: `s[i]` is `<`, the
/// next character is not `>`, and a `>` follows.
pub open spec fn tag_end(s: Seq<char>, i: int) -> Option<int> {
    if 0 <= i && i + 1 < s.len() && s[i] == '<' && s[i + 1] != '>' {
        match find_from(s, seq!['>'], i + 1) {
            Some(j) => if i + 1 < j < s.len() {
                Some(j)
            } else {
                None
            },
            None => None,
        }
    } else {
        None
    }
}

/// The text of `s` from index `i` on with every tag removed, tags being
/// found left to right without overlap.
pub open spec fn strip_tags_from(s: Seq<char>, i: int) -> Seq<char>
    decreases s.len() - i,
{
    if i < 0 || i >= s.len() {
        Seq::empty()
    } else {
        match tag_end(s, i) {
            Some(j) => strip_tags_from(s, j + 1),
            None => seq![s[i]] + strip_tags_from(s, i + 1),
        }
    }
}

/// `s` with every tag removed.
pub open spec fn strip_tags(s: Seq<char>) -> Seq<char> {
    strip_tags_from(s, 0)
}

fn tag_end_exec(s: &Vec<char>, i: usize) -> (r: Option<usize>)
    requires
        i < s.len(),
    ensures
        r matches Some(j) ==> tag_end(s@, i as int) == Some(j as int),
        r is None ==> tag_end(s@, i as int) is None,
{
    if i + 1 < s.len() && s[i] == '<' && s[i + 1] != '>' {
        let gt = vec!['>'];
        assert(gt@ =~= seq!['>']);
        match find(s, &gt, i + 1) {
            Some(j) => {
                if i + 1 < j && j < s.len() {
                    Some(j)
                } else {
                    None
                }
            },
            None => None,
        }
    } else {
        None
    }
}

/// `strip_tags(s)`.
pub fn strip_tags_chars(s: &Vec<char>) -> (r: Vec<char>)
    ensures
        r@ == strip_tags(s@),
{
    let mut out: Vec<char> = Vec::new();
    let mut i: usize = 0;
    while i < s.len()
        invariant
            i <= s.len(),
            strip_tags(s@) == out@ + strip_tags_from(s@, i as int),
        decreases s.len() - i,
    {
        match tag_end_exec(s, i) {
            Some(j) => {
                i = j + 1;
            },
            None => {
                let ghost before = out@;
                out.push(s[i]);
                assert(out@ + strip_tags_from(s@, i + 1) =~= before + (seq![s@[i as int]]
                    + strip_tags_from(s@, i + 1)));
                i = i + 1;
            },
        }
    }
    assert(out@ + Seq::<char>::empty() =~= out@);
    out
}

/// The text of an HTML fragment: tags stripped, entities decoded, white
/// space collapsed to single spaces between words.
pub open spec fn clean_html(s: Seq<char>) -> Seq<char> {
    collapse_ws(decode_html(strip_tags(s)))
}

/// `clean_html(s)`.
pub fn clean_html_text(s: &Vec<char>) -> (r: Vec<char>)
    ensures
        r@ == clean_html(s@),
{
    let a = strip_tags_chars(s);
    let b = decode_html_chars(&a);
    collapse_whitespace(&b)
}

/// `http://`
pub open spec fn http_prefix() -> Seq<char> {
    seq!['h', 't', 't', 'p', ':', '/', '/']
}

/// `https://`
pub open spec fn https_prefix() -> Seq<char> {
    seq!['h', 't', 't', 'p', 's', ':', '/', '/']
}

/// `https://arxiv.org`
pub open spec fn arxiv_origin() -> Seq<char> {
    seq!['h', 't', 't', 'p', 's', ':', '/', '/', 'a', 'r', 'x', 'i', 'v', '.', 'o', 'r', 'g']
}

/// A link of the arXiv search page made absolute: the trimmed, decoded link
/// when it already starts with `http://` or `https://`, else the link behind
/// `https://arxiv.org`.
pub open spec fn absolute_url(v: Seq<char>) -> Seq<char> {
    let d = decode_html(crate::text::trim(v));
    if crate::text::starts_with(d, http_prefix()) || crate::text::starts_with(d, https_prefix()) {
        d
    } else {
        arxiv_origin() + d
    }
}

/// `absolute_url(v)`.
pub fn absolute_arxiv_url(v: &Vec<char>) -> (r: Vec<char>)
    ensures
        r@ == absolute_url(v@),
{
    let t = crate::text::trim_chars(v);
    let d = decode_html_chars(&t);
    let http = vec!['h', 't', 't', 'p', ':', '/', '/'];
    let https = vec!['h', 't', 't', 'p', 's', ':', '/', '/'];
    assert(http@ =~= http_prefix() && https@ =~= https_prefix());
    if crate::text::starts_with_chars(&d, &http) || crate::text::starts_with_chars(&d, &https) {
        d
    } else {
        let mut r = vec![
            'h', 't', 't', 'p', 's', ':', '/', '/', 'a', 'r', 'x', 'i', 'v', '.', 'o', 'r', 'g',
        ];
        assert(r@ =~= arxiv_origin());
        append_chars(&mut r, &d);
        r
    }
}

} // verus!
