//! The tag grammar: attribute names, attributes, start tags and end tags.
//!
//! Each construct has a spec-level parser over `Seq<char>` that pins down
//! exactly which inputs are accepted, how many characters are consumed and
//! what is extracted, and an executable parser proved to return exactly
//! what the spec parser says.

use vstd::prelude::*;

use crate::chars::ascii_ws;
use crate::chars::attr_name_char;
use crate::chars::is_ascii_ws;
use crate::chars::is_attr_name_char;
use crate::chars::is_end_name_end;
use crate::chars::is_start_name_end;
use crate::chars::start_name_end;
use crate::chars::end_name_end;
use crate::scan::find_char;
use crate::scan::find_char_from;
use crate::scan::lemma_find_char_facts;
use crate::scan::lemma_take_while_len;
use crate::scan::lemma_take_while_len_facts;
use crate::scan::scan_ws;
use crate::scan::str_eq;
use crate::scan::take_while_len;

verus! {

/// Why a parse did not produce a result.
#[derive(Debug, Clone, Copy, PartialEq, Eq, Structural)]
pub enum ParseFailure {
    /// An attribute-name scan found zero valid characters.
    AttributeNameEmpty,
    /// A start tag misses its `<`, has an empty name, or never reaches `>`.
    MalformedStartTag,
    /// An end tag misses its `</` prefix or its terminating `>`.
    MalformedEndTag,
    /// The content scan exhausted the input without finding the end tag
    /// that closes the outermost nesting level.
    UnterminatedBlock,
}

/// The parsed form of a start tag: its name and the value of its first
/// `lang` attribute, if one with a value is present.
#[derive(Debug, Clone, Copy, PartialEq)]
pub struct StartTag<'a> {
    /// The tag name such as `template`, `script` or `style`.
    pub name: &'a str,
    /// The value of the first attribute literally named `lang` that carries
    /// a value; later `lang` attributes are ignored.
    pub lang: Option<&'a str>,
}

/// Length of the attribute name at the head of `s`: the maximal run of
/// characters valid in an attribute name.
pub open spec fn attr_name_len(s: Seq<char>) -> nat {
    take_while_len(|c: char| is_attr_name_char(c), s)
}

/// Length of the ASCII-whitespace run at the head of `s`.
pub open spec fn ws_len(s: Seq<char>) -> nat {
    take_while_len(|c: char| is_ascii_ws(c), s)
}

/// Length of the start-tag name at the head of `s`: the run up to the
/// first ASCII whitespace, `/` or `>`.
pub open spec fn start_name_len(s: Seq<char>) -> nat {
    take_while_len(|c: char| !is_start_name_end(c), s)
}

/// Length of the end-tag name at the head of `s`: the run up to the first
/// ASCII whitespace or `>`.
pub open spec fn end_name_len(s: Seq<char>) -> nat {
    take_while_len(|c: char| !is_end_name_end(c), s)
}

/// The optional value clause of an attribute: whitespace, `=`, whitespace,
/// then a value quoted by `"` or `'`, closed by the first following
/// occurrence of the same quote character. Returns the number of characters
/// consumed and the value between the quotes, or `None` if no complete
/// clause is present.
pub open spec fn attr_value_clause(s: Seq<char>) -> Option<(nat, Seq<char>)> {
    let w1 = ws_len(s) as int;
    if w1 < s.len() && s[w1] == '=' {
        let t = s.skip(w1 + 1);
        let w2 = ws_len(t) as int;
        if w2 < t.len() && (t[w2] == '"' || t[w2] == '\'') {
            let body = t.skip(w2 + 1);
            match find_char(body, t[w2]) {
                Some(k) => Some(((w1 + 1 + w2 + 1 + k + 1) as nat, body.take(k as int))),
                None => None,
            }
        } else {
            None
        }
    } else {
        None
    }
}

/// A complete value clause consumes at least one character and no more
/// than the whole input.
pub proof fn lemma_attr_value_clause_bounds(s: Seq<char>)
    ensures
        match attr_value_clause(s) {
            Some(t) => 1 <= t.0 <= s.len(),
            None => true,
        },
{
    lemma_take_while_len_facts(|c: char| is_ascii_ws(c), s);
    let w1 = ws_len(s) as int;
    if w1 < s.len() && s[w1] == '=' {
        let t = s.skip(w1 + 1);
        lemma_take_while_len_facts(|c: char| is_ascii_ws(c), t);
        let w2 = ws_len(t) as int;
        if w2 < t.len() && (t[w2] == '"' || t[w2] == '\'') {
            let body = t.skip(w2 + 1);
            lemma_find_char_facts(body, t[w2]);
        }
    }
}

/// One attribute: a non-empty name, then an optional value clause. Returns
/// the number of characters consumed, the name, and the value if one is
/// present, or `None` if the name would be empty.
pub open spec fn spec_attribute(s: Seq<char>) -> Option<(nat, Seq<char>, Option<Seq<char>>)> {
    let n = attr_name_len(s) as int;
    if n == 0 {
        None
    } else {
        match attr_value_clause(s.skip(n)) {
            Some(t) => Some(((n + t.0) as nat, s.take(n), Some(t.1))),
            None => Some((n as nat, s.take(n), None)),
        }
    }
}

/// An attribute consumes at least one character and no more than the whole
/// input.
pub proof fn lemma_spec_attribute_bounds(s: Seq<char>)
    ensures
        match spec_attribute(s) {
            Some(t) => 1 <= t.0 <= s.len(),
            None => true,
        },
{
    lemma_take_while_len_facts(|c: char| is_attr_name_char(c), s);
    let n = attr_name_len(s) as int;
    if n != 0 {
        lemma_attr_value_clause_bounds(s.skip(n));
    }
}

/// The attribute list of a start tag: zero or more attributes, each
/// preceded by optional whitespace, folded down to the value of the first
/// `lang` attribute that carries a value. `lang` is the value found so
/// far. Returns the number of characters consumed and the final `lang`
/// value. The list ends where no further attribute name follows the
/// whitespace run.
pub open spec fn spec_attrs_lang(s: Seq<char>, lang: Option<Seq<char>>) -> (nat, Option<
    Seq<char>,
>)
    decreases s.len(),
        via spec_attrs_lang_dec
{
    let w = ws_len(s) as int;
    match spec_attribute(s.skip(w)) {
        None => (0, lang),
        Some(t) => {
            let lang2 = if lang is None && t.1 == "lang"@ && t.2 is Some {
                t.2
            } else {
                lang
            };
            let rest = spec_attrs_lang(s.skip(w + t.0), lang2);
            ((w + t.0 + rest.0) as nat, rest.1)
        },
    }
}

#[via_fn]
proof fn spec_attrs_lang_dec(s: Seq<char>, lang: Option<Seq<char>>) {
    lemma_take_while_len_facts(|c: char| is_ascii_ws(c), s);
    lemma_spec_attribute_bounds(s.skip(ws_len(s) as int));
}

/// The attribute list consumes no more than the whole input.
pub proof fn lemma_spec_attrs_lang_bounds(s: Seq<char>, lang: Option<Seq<char>>)
    ensures
        spec_attrs_lang(s, lang).0 <= s.len(),
    decreases s.len(),
{
    lemma_take_while_len_facts(|c: char| is_ascii_ws(c), s);
    let w = ws_len(s) as int;
    lemma_spec_attribute_bounds(s.skip(w));
    match spec_attribute(s.skip(w)) {
        None => {},
        Some(t) => {
            let lang2 = if lang is None && t.1 == "lang"@ && t.2 is Some {
                t.2
            } else {
                lang
            };
            lemma_spec_attrs_lang_bounds(s.skip(w + t.0), lang2);
        },
    }
}

/// A start tag: `<`, a non-empty name ended by whitespace, `/` or `>`,
/// the attribute list, optional whitespace, an optional self-closing `/`,
/// then `>`. Returns the number of characters consumed, the name, and the
/// `lang` attribute value, or `None` where the grammar is not met.
pub open spec fn spec_start_tag(s: Seq<char>) -> Option<(nat, Seq<char>, Option<Seq<char>>)> {
    if s.len() == 0 || s[0] != '<' {
        None
    } else {
        let n = start_name_len(s.skip(1)) as int;
        if n == 0 {
            None
        } else {
            let name = s.skip(1).take(n);
            let al = spec_attrs_lang(s.skip(1 + n), None);
            let p = 1 + n + al.0;
            let w = ws_len(s.skip(p)) as int;
            let q = p + w;
            let slash: int = if q < s.len() && s[q] == '/' {
                1
            } else {
                0
            };
            let e = q + slash;
            if e < s.len() && s[e] == '>' {
                Some(((e + 1) as nat, name, al.1))
            } else {
                None
            }
        }
    }
}

/// A start tag consumes at least one character and no more than the whole
/// input, and its name is non-empty.
pub proof fn lemma_spec_start_tag_bounds(s: Seq<char>)
    ensures
        match spec_start_tag(s) {
            Some(t) => 1 <= t.0 <= s.len() && t.1.len() >= 1,
            None => true,
        },
{
    if s.len() != 0 && s[0] == '<' {
        lemma_take_while_len_facts(|c: char| !is_start_name_end(c), s.skip(1));
        let n = start_name_len(s.skip(1)) as int;
        if n != 0 {
            lemma_spec_attrs_lang_bounds(s.skip(1 + n), None);
            let al = spec_attrs_lang(s.skip(1 + n), None);
            let p = 1 + n + al.0;
            lemma_take_while_len_facts(|c: char| is_ascii_ws(c), s.skip(p));
        }
    }
}

/// An end tag: `</`, a possibly empty name ended by whitespace or `>`,
/// optional whitespace, then `>`. Returns the number of characters
/// consumed and the name, or `None` where the grammar is not met.
pub open spec fn spec_end_tag(s: Seq<char>) -> Option<(nat, Seq<char>)> {
    if s.len() >= 2 && s[0] == '<' && s[1] == '/' {
        let n = end_name_len(s.skip(2)) as int;
        let name = s.skip(2).take(n);
        let w = ws_len(s.skip(2 + n)) as int;
        let e = 2 + n + w;
        if e < s.len() && s[e] == '>' {
            Some(((e + 1) as nat, name))
        } else {
            None
        }
    } else {
        None
    }
}

/// An end tag consumes at least three characters and no more than the
/// whole input.
pub proof fn lemma_spec_end_tag_bounds(s: Seq<char>)
    ensures
        match spec_end_tag(s) {
            Some(t) => 3 <= t.0 <= s.len(),
            None => true,
        },
{
    if s.len() >= 2 && s[0] == '<' && s[1] == '/' {
        lemma_take_while_len_facts(|c: char| !is_end_name_end(c), s.skip(2));
        let n = end_name_len(s.skip(2)) as int;
        lemma_take_while_len_facts(|c: char| is_ascii_ws(c), s.skip(2 + n));
    }
}

/// The character sequences held by an optional string slice.
pub open spec fn opt_view(o: Option<&str>) -> Option<Seq<char>> {
    match o {
        Option::Some(x) => Some(x@),
        Option::None => None,
    }
}

/// Length of the run of attribute-name characters in `input` starting at
/// `from`.
fn scan_attr_name(input: &str, from: usize) -> (r: usize)
    requires
        from <= input@.len(),
    ensures
        from <= r <= input@.len(),
        r - from == attr_name_len(input@.skip(from as int)),
{
    let len = input.unicode_len();
    let mut i = from;
    while i < len && attr_name_char(input.get_char(i))
        invariant
            from <= i <= len,
            len == input@.len(),
            forall|j: int| from <= j < i ==> is_attr_name_char(input@[j]),
        decreases len - i,
    {
        i = i + 1;
    }
    proof {
        let sub = input@.skip(from as int);
        assert forall|j: int| 0 <= j < i - from implies (|c: char| is_attr_name_char(c))(
            sub[j],
        ) by {
            assert(sub[j] == input@[j + from]);
        }
        if i < len {
            assert(sub[i - from] == input@[i as int]);
        }
        lemma_take_while_len(|c: char| is_attr_name_char(c), sub, i - from);
    }
    i
}

/// Length of the run of start-tag-name characters in `input` starting at
/// `from`.
fn scan_start_name(input: &str, from: usize) -> (r: usize)
    requires
        from <= input@.len(),
    ensures
        from <= r <= input@.len(),
        r - from == start_name_len(input@.skip(from as int)),
{
    let len = input.unicode_len();
    let mut i = from;
    while i < len && !start_name_end(input.get_char(i))
        invariant
            from <= i <= len,
            len == input@.len(),
            forall|j: int| from <= j < i ==> !is_start_name_end(input@[j]),
        decreases len - i,
    {
        i = i + 1;
    }
    proof {
        let sub = input@.skip(from as int);
        assert forall|j: int| 0 <= j < i - from implies (|c: char| !is_start_name_end(c))(
            sub[j],
        ) by {
            assert(sub[j] == input@[j + from]);
        }
        if i < len {
            assert(sub[i - from] == input@[i as int]);
        }
        lemma_take_while_len(|c: char| !is_start_name_end(c), sub, i - from);
    }
    i
}

/// Length of the run of end-tag-name characters in `input` starting at
/// `from`.
fn scan_end_name(input: &str, from: usize) -> (r: usize)
    requires
        from <= input@.len(),
    ensures
        from <= r <= input@.len(),
        r - from == end_name_len(input@.skip(from as int)),
{
    let len = input.unicode_len();
    let mut i = from;
    while i < len && !end_name_end(input.get_char(i))
        invariant
            from <= i <= len,
            len == input@.len(),
            forall|j: int| from <= j < i ==> !is_end_name_end(input@[j]),
        decreases len - i,
    {
        i = i + 1;
    }
    proof {
        let sub = input@.skip(from as int);
        assert forall|j: int| 0 <= j < i - from implies (|c: char| !is_end_name_end(c))(
            sub[j],
        ) by {
            assert(sub[j] == input@[j + from]);
        }
        if i < len {
            assert(sub[i - from] == input@[i as int]);
        }
        lemma_take_while_len(|c: char| !is_end_name_end(c), sub, i - from);
    }
    i
}

/// The value clause of an attribute in `input` starting at `from`, if a
/// complete one is present there: the position just past its closing quote
/// and the value between the quotes.
fn scan_value_clause<'a>(input: &'a str, from: usize) -> (r: Option<(usize, &'a str)>)
    requires
        from <= input@.len(),
    ensures
        match attr_value_clause(input@.skip(from as int)) {
            Some(t) => r matches Some((e, v)) && e - from == t.0 && from <= e <= input@.len()
                && v@ == t.1,
            None => r is None,
        },
{
    let ghost s = input@.skip(from as int);
    let len = input.unicode_len();
    let w1end = scan_ws(input, from);
    proof {
        if w1end < len {
            assert(s[w1end - from] == input@[w1end as int]);
        }
    }
    if w1end < len && input.get_char(w1end) == '=' {
        let w2end = scan_ws(input, w1end + 1);
        proof {
            let t = s.skip(w1end - from + 1);
            assert(t =~= input@.skip(w1end + 1));
            if w2end < len {
                assert(t[w2end - w1end - 1] == input@[w2end as int]);
            }
        }
        if w2end < len {
            let q = input.get_char(w2end);
            if q == '"' || q == '\'' {
                proof {
                    let t = s.skip(w1end - from + 1);
                    let body = t.skip(w2end - w1end - 1 + 1);
                    assert(body =~= input@.skip(w2end + 1));
                }
                match find_char_from(input, w2end + 1, q) {
                    Some(cq) => {
                        let value = input.substring_char(w2end + 1, cq);
                        proof {
                            let t = s.skip(w1end - from + 1);
                            let body = t.skip(w2end - w1end - 1 + 1);
                            assert(body.take(cq - (w2end + 1)) =~= input@.subrange(
                                w2end + 1,
                                cq as int,
                            ));
                        }
                        Some((cq + 1, value))
                    },
                    None => None,
                }
            } else {
                None
            }
        } else {
            None
        }
    } else {
        None
    }
}

/// Parse the attribute name at the head of `input`: the longest non-empty
/// run of characters valid in an attribute name. Returns the rest of the
/// input and the name; fails with `AttributeNameEmpty` if and only if the
/// run is empty.
pub fn parse_attribute_name<'a>(input: &'a str) -> (r: Result<(&'a str, &'a str), ParseFailure>)
    ensures
        ({
            let n = attr_name_len(input@) as int;
            &&& n == 0 ==> r == Err::<(&'a str, &'a str), ParseFailure>(
                ParseFailure::AttributeNameEmpty,
            )
            &&& n > 0 ==> (r matches Ok((rem, name)) && name@ == input@.take(n) && rem@
                == input@.skip(n))
        }),
{
    proof {
        assert(input@.skip(0) =~= input@);
    }
    let end = scan_attr_name(input, 0);
    if end == 0 {
        Err(ParseFailure::AttributeNameEmpty)
    } else {
        let len = input.unicode_len();
        Ok((input.substring_char(end, len), input.substring_char(0, end)))
    }
}

/// Parse one attribute at the head of `input`: a name, then an optional
/// value clause. Returns the rest of the input and the `(name, value)`
/// pair; fails with `AttributeNameEmpty` if and only if the name would be
/// empty. Once a name is found the attribute always succeeds, with no
/// value where no complete value clause follows.
pub fn parse_attribute<'a>(input: &'a str) -> (r: Result<
    (&'a str, (&'a str, Option<&'a str>)),
    ParseFailure,
>)
    ensures
        match spec_attribute(input@) {
            Some(t) => r matches Ok((rem, a)) && a.0@ == t.1 && opt_view(a.1) == t.2 && rem@
                == input@.skip(t.0 as int),
            None => r == Err::<(&'a str, (&'a str, Option<&'a str>)), ParseFailure>(
                ParseFailure::AttributeNameEmpty,
            ),
        },
{
    proof {
        assert(input@.skip(0) =~= input@);
    }
    let len = input.unicode_len();
    let n = scan_attr_name(input, 0);
    if n == 0 {
        return Err(ParseFailure::AttributeNameEmpty);
    }
    let name = input.substring_char(0, n);
    match scan_value_clause(input, n) {
        Some((e, v)) => Ok((input.substring_char(e, len), (name, Some(v)))),
        None => Ok((input.substring_char(n, len), (name, None))),
    }
}

/// Parse the end tag at the head of `input`: `</`, a name, optional
/// whitespace, `>`. Returns the rest of the input and the tag name; fails
/// with `MalformedEndTag` if and only if the grammar is not met.
pub fn parse_end_tag<'a>(input: &'a str) -> (r: Result<(&'a str, &'a str), ParseFailure>)
    ensures
        match spec_end_tag(input@) {
            Some(t) => r matches Ok((rem, name)) && name@ == t.1 && rem@ == input@.skip(
                t.0 as int,
            ),
            None => r == Err::<(&'a str, &'a str), ParseFailure>(ParseFailure::MalformedEndTag),
        },
{
    let len = input.unicode_len();
    if len < 2 || input.get_char(0) != '<' || input.get_char(1) != '/' {
        return Err(ParseFailure::MalformedEndTag);
    }
    let nend = scan_end_name(input, 2);
    let name = input.substring_char(2, nend);
    proof {
        assert(input@.skip(2).take(nend - 2) =~= input@.subrange(2, nend as int));
    }
    let wend = scan_ws(input, nend);
    proof {
        assert(input@.skip(nend as int) =~= input@.skip(2).skip(nend - 2));
        if wend < len {
            assert(input@.skip(nend as int)[wend - nend] == input@[wend as int]);
        }
    }
    if wend < len && input.get_char(wend) == '>' {
        Ok((input.substring_char(wend + 1, len), name))
    } else {
        Err(ParseFailure::MalformedEndTag)
    }
}

/// Parse the start tag at the head of `input`: `<`, a non-empty name, a
/// greedy attribute list, optional whitespace, an optional self-closing
/// `/`, then `>`. Returns the rest of the input and the parsed tag, whose
/// `lang` is the value of the first `lang` attribute that carries one;
/// fails with `MalformedStartTag` if and only if the grammar is not met.
pub fn parse_start_tag<'a>(input: &'a str) -> (r: Result<(&'a str, StartTag<'a>), ParseFailure>)
    ensures
        match spec_start_tag(input@) {
            Some(t) => r matches Ok((rem, st)) && st.name@ == t.1 && opt_view(st.lang) == t.2
                && rem@ == input@.skip(t.0 as int),
            None => r == Err::<(&'a str, StartTag<'a>), ParseFailure>(
                ParseFailure::MalformedStartTag,
            ),
        },
{
    let len = input.unicode_len();
    if len == 0 || input.get_char(0) != '<' {
        return Err(ParseFailure::MalformedStartTag);
    }
    let nend = scan_start_name(input, 1);
    if nend == 1 {
        return Err(ParseFailure::MalformedStartTag);
    }
    let name = input.substring_char(1, nend);
    proof {
        assert(input@.skip(1).take(nend - 1) =~= input@.subrange(1, nend as int));
    }
    let mut pos = nend;
    let mut lang: Option<&'a str> = None;
    loop
        invariant
            nend <= pos <= len,
            len == input@.len(),
            spec_attrs_lang(input@.skip(nend as int), None) == ((
                (pos - nend) + spec_attrs_lang(input@.skip(pos as int), opt_view(lang)).0) as nat,
                spec_attrs_lang(input@.skip(pos as int), opt_view(lang)).1,
            ),
        ensures
            nend <= pos <= len,
            spec_attrs_lang(input@.skip(nend as int), None) == (((pos - nend) as nat), opt_view(
                lang,
            )),
        decreases len - pos,
    {
        let ghost sp = input@.skip(pos as int);
        let wend = scan_ws(input, pos);
        proof {
            assert(sp.skip(wend - pos) =~= input@.skip(wend as int));
        }
        let anend = scan_attr_name(input, wend);
        if anend == wend {
            proof {
                assert(spec_attrs_lang(sp, opt_view(lang)) == (0nat, opt_view(lang)));
            }
            break ;
        }
        let aname = input.substring_char(wend, anend);
        proof {
            assert(input@.skip(wend as int).take(anend - wend) =~= input@.subrange(
                wend as int,
                anend as int,
            ));
            assert(input@.skip(wend as int).skip(anend - wend) =~= input@.skip(anend as int));
        }
        let clause = scan_value_clause(input, anend);
        let is_lang = str_eq(aname, "lang");
        let ghost old_pos = pos;
        let ghost old_lang = lang;
        match clause {
            Some((e, v)) => {
                if lang.is_none() && is_lang {
                    lang = Some(v);
                }
                pos = e;
            },
            None => {
                pos = anend;
            },
        }
        proof {
            let w = (wend - old_pos) as int;
            let t = spec_attribute(sp.skip(w));
            assert(t matches Some(a) && a.0 == pos - wend && a.1 == aname@ && a.2 == opt_view(
                match clause {
                    Some((e2, v2)) => Some(v2),
                    None => None,
                },
            ));
            assert(sp.skip(w + (pos - wend)) =~= input@.skip(pos as int));
        }
    }
    let wend = scan_ws(input, pos);
    let ghost al = spec_attrs_lang(input@.skip(nend as int), None);
    proof {
        assert(input@.skip(pos as int) =~= input@.skip(1 + (nend - 1) + al.0));
        if wend < len {
            assert(input@.skip(pos as int)[wend - pos] == input@[wend as int]);
        }
    }
    let slashed = if wend < len && input.get_char(wend) == '/' {
        wend + 1
    } else {
        wend
    };
    if slashed < len && input.get_char(slashed) == '>' {
        let rem = input.substring_char(slashed + 1, len);
        Ok((rem, StartTag { name, lang }))
    } else {
        Err(ParseFailure::MalformedStartTag)
    }
}

} // verus!
