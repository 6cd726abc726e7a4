//! The nesting-aware content scanner: given the name of the enclosing
//! block, walk the `<` occurrences of the text after the block's start tag
//! and find the end tag that closes the outermost level, counting
//! same-named start/end tag pairs as depth. Tag names are compared
//! case-insensitively; a `<` that is not a valid tag is inert text.

use vstd::prelude::*;

use crate::chars::eq_ignore_case;
use crate::chars::lemma_eq_ignore_case_common;
use crate::scan::find_char;
use crate::scan::find_char_from;
use crate::scan::lemma_find_char_facts;
use crate::scan::str_eq_ignore_case;
use crate::tag::parse_end_tag;
use crate::tag::parse_start_tag;
use crate::tag::spec_end_tag;
use crate::tag::spec_start_tag;
use crate::tag::ParseFailure;

verus! {

/// What one candidate `<` does to the scan.
pub ghost enum ScanStep {
    /// An end tag of the enclosing name at nesting level zero: the block
    /// closes here.
    Close,
    /// Anything else: scanning continues at the given nesting level. A
    /// same-named start tag raises the level, a same-named end tag above
    /// level zero lowers it, and any other text leaves it unchanged.
    Continue(nat),
}

/// The decision taken at one `<`: try a start tag first, and only where
/// that fails an end tag; names are compared to `tag` ignoring ASCII case.
pub open spec fn scan_step(tag: Seq<char>, here: Seq<char>, level: nat) -> ScanStep {
    match spec_start_tag(here) {
        Some(st) => if eq_ignore_case(st.1, tag) {
            ScanStep::Continue((level + 1) as nat)
        } else {
            ScanStep::Continue(level)
        },
        None => match spec_end_tag(here) {
            Some(et) => if eq_ignore_case(et.1, tag) {
                if level == 0 {
                    ScanStep::Close
                } else {
                    ScanStep::Continue((level - 1) as nat)
                }
            } else {
                ScanStep::Continue(level)
            },
            None => ScanStep::Continue(level),
        },
    }
}

/// The position of the `<` that closes the block, scanning from position
/// `i` (a `<`) at nesting level `level`, or `None` where the input is
/// exhausted first.
pub open spec fn spec_content_end(tag: Seq<char>, s: Seq<char>, i: int, level: nat) -> Option<int>
    decreases s.len() - i,
{
    if 0 <= i < s.len() {
        match scan_step(tag, s.skip(i), level) {
            ScanStep::Close => Some(i),
            ScanStep::Continue(l2) => match find_char(s.skip(i + 1), '<') {
                None => None,
                Some(j) => {
                    proof {
                        lemma_find_char_facts(s.skip(i + 1), '<');
                    }
                    spec_content_end(tag, s, i + 1 + j, l2)
                },
            },
        }
    } else {
        None
    }
}

/// The position of the `<` of the end tag that closes a block named `tag`
/// whose content starts at the head of `s`, or `None` where no such end
/// tag exists (the unterminated case, which includes empty input and
/// input without any `<`).
pub open spec fn spec_tag_content(tag: Seq<char>, s: Seq<char>) -> Option<int> {
    if s.len() == 0 {
        None
    } else {
        match find_char(s, '<') {
            None => None,
            Some(i) => spec_content_end(tag, s, i as int, 0),
        }
    }
}

/// A found close position lies between the scan position and the end of
/// the input.
pub proof fn lemma_spec_content_end_bounds(tag: Seq<char>, s: Seq<char>, i: int, level: nat)
    ensures
        match spec_content_end(tag, s, i, level) {
            Some(e) => 0 <= i <= e < s.len(),
            None => true,
        },
    decreases s.len() - i,
{
    if 0 <= i < s.len() {
        match scan_step(tag, s.skip(i), level) {
            ScanStep::Close => {},
            ScanStep::Continue(l2) => {
                lemma_find_char_facts(s.skip(i + 1), '<');
                match find_char(s.skip(i + 1), '<') {
                    None => {},
                    Some(j) => {
                        lemma_spec_content_end_bounds(tag, s, i + 1 + j, l2);
                    },
                }
            },
        }
    }
}

/// A found close position lies inside the input.
pub proof fn lemma_spec_tag_content_bounds(tag: Seq<char>, s: Seq<char>)
    ensures
        match spec_tag_content(tag, s) {
            Some(e) => 0 <= e < s.len(),
            None => true,
        },
{
    if s.len() != 0 {
        lemma_find_char_facts(s, '<');
        match find_char(s, '<') {
            None => {},
            Some(i) => {
                lemma_spec_content_end_bounds(tag, s, i as int, 0);
            },
        }
    }
}

/// An empty remaining document immediately fails the content scan as
/// unterminated: there is no end tag to find.
pub proof fn lemma_empty_input_unterminated(tag: Seq<char>, s: Seq<char>)
    requires
        s.len() == 0,
    ensures
        spec_tag_content(tag, s) is None,
{
}

/// The decision at one `<` is the same for two enclosing names that are
/// equal up to ASCII case.
proof fn lemma_scan_step_case_insensitive(
    tag1: Seq<char>,
    tag2: Seq<char>,
    here: Seq<char>,
    level: nat,
)
    requires
        eq_ignore_case(tag1, tag2),
    ensures
        scan_step(tag1, here, level) == scan_step(tag2, here, level),
{
    match spec_start_tag(here) {
        Some(st) => {
            lemma_eq_ignore_case_common(st.1, tag1, tag2);
        },
        None => {
            match spec_end_tag(here) {
                Some(et) => {
                    lemma_eq_ignore_case_common(et.1, tag1, tag2);
                },
                None => {},
            }
        },
    }
}

proof fn lemma_spec_content_end_case_insensitive(
    tag1: Seq<char>,
    tag2: Seq<char>,
    s: Seq<char>,
    i: int,
    level: nat,
)
    requires
        eq_ignore_case(tag1, tag2),
    ensures
        spec_content_end(tag1, s, i, level) == spec_content_end(tag2, s, i, level),
    decreases s.len() - i,
{
    if 0 <= i < s.len() {
        lemma_scan_step_case_insensitive(tag1, tag2, s.skip(i), level);
        match scan_step(tag1, s.skip(i), level) {
            ScanStep::Close => {},
            ScanStep::Continue(l2) => {
                lemma_find_char_facts(s.skip(i + 1), '<');
                match find_char(s.skip(i + 1), '<') {
                    None => {},
                    Some(j) => {
                        lemma_spec_content_end_case_insensitive(tag1, tag2, s, i + 1 + j, l2);
                    },
                }
            },
        }
    }
}

/// Case-insensitive matching: the content scan behaves identically for two
/// enclosing tag names that are equal up to ASCII case. A `<Script>` block
/// is closed by `</SCRIPT>`.
pub proof fn lemma_tag_content_case_insensitive(tag1: Seq<char>, tag2: Seq<char>, s: Seq<char>)
    requires
        eq_ignore_case(tag1, tag2),
    ensures
        spec_tag_content(tag1, s) == spec_tag_content(tag2, s),
{
    if s.len() != 0 {
        match find_char(s, '<') {
            None => {},
            Some(i) => {
                lemma_spec_content_end_case_insensitive(tag1, tag2, s, i as int, 0);
            },
        }
    }
}

proof fn lemma_spec_content_end_closes(tag: Seq<char>, s: Seq<char>, i: int, level: nat)
    ensures
        match spec_content_end(tag, s, i, level) {
            Some(e) => spec_end_tag(s.skip(e)) matches Some(et) && eq_ignore_case(et.1, tag),
            None => true,
        },
    decreases s.len() - i,
{
    if 0 <= i < s.len() {
        match scan_step(tag, s.skip(i), level) {
            ScanStep::Close => {},
            ScanStep::Continue(l2) => {
                lemma_find_char_facts(s.skip(i + 1), '<');
                match find_char(s.skip(i + 1), '<') {
                    None => {},
                    Some(j) => {
                        lemma_spec_content_end_closes(tag, s, i + 1 + j, l2);
                    },
                }
            },
        }
    }
}

/// Where the content scan stops, a complete end tag stands whose name
/// equals the enclosing name up to ASCII case: the close found by nesting
/// is a real, matching end tag by construction.
pub proof fn lemma_tag_content_closes(tag: Seq<char>, s: Seq<char>)
    ensures
        match spec_tag_content(tag, s) {
            Some(e) => spec_end_tag(s.skip(e)) matches Some(et) && eq_ignore_case(et.1, tag),
            None => true,
        },
{
    if s.len() != 0 {
        match find_char(s, '<') {
            None => {},
            Some(i) => {
                lemma_spec_content_end_closes(tag, s, i as int, 0);
            },
        }
    }
}

/// Scan the content of a block named `tag_name` at the head of `input`:
/// return the content up to (excluding) the end tag that closes the
/// outermost level, and the rest of the input starting at that end tag.
/// Fails with `UnterminatedBlock` if and only if the input is exhausted
/// without finding that end tag.
pub fn parse_tag_content<'a>(tag_name: &str, input: &'a str) -> (r: Result<
    (&'a str, &'a str),
    ParseFailure,
>)
    ensures
        match spec_tag_content(tag_name@, input@) {
            Some(e) => r matches Ok((rem, content)) && content@ == input@.take(e) && rem@
                == input@.skip(e),
            None => r == Err::<(&'a str, &'a str), ParseFailure>(ParseFailure::UnterminatedBlock),
        },
{
    let len = input.unicode_len();
    if len == 0 {
        return Err(ParseFailure::UnterminatedBlock);
    }
    proof {
        assert(input@.skip(0) =~= input@);
    }
    let first = match find_char_from(input, 0, '<') {
        Some(i) => i,
        None => {
            return Err(ParseFailure::UnterminatedBlock);
        },
    };
    let mut index = first;
    let mut level: usize = 0;
    loop
        invariant
            first <= index < len,
            len == input@.len(),
            level <= index,
            spec_tag_content(tag_name@, input@) == spec_content_end(
                tag_name@,
                input@,
                index as int,
                level as nat,
            ),
        decreases len - index,
    {
        let sub = input.substring_char(index, len);
        proof {
            assert(sub@ =~= input@.skip(index as int));
        }
        match parse_start_tag(sub) {
            Ok((_, st)) => {
                if str_eq_ignore_case(st.name, tag_name) {
                    level = level + 1;
                }
            },
            Err(_) => {
                match parse_end_tag(sub) {
                    Ok((_, en)) => {
                        if str_eq_ignore_case(en, tag_name) {
                            if level == 0 {
                                let content = input.substring_char(0, index);
                                return Ok((sub, content));
                            } else {
                                level = level - 1;
                            }
                        }
                    },
                    Err(_) => {},
                }
            },
        }
        match find_char_from(input, index + 1, '<') {
            Some(j) => {
                index = j;
            },
            None => {
                return Err(ParseFailure::UnterminatedBlock);
            },
        }
    }
}

} // verus!
