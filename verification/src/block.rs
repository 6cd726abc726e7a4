//! Block assembly: a start tag, at most one stripped newline, the
//! nesting-aware content, and the matching end tag, packaged with the raw
//! source text of both tags so that the consumed span can be reconstructed
//! exactly.

use vstd::prelude::*;

use crate::content::lemma_spec_tag_content_bounds;
use crate::content::lemma_tag_content_closes;
use crate::content::parse_tag_content;
use crate::content::spec_tag_content;
use crate::tag::lemma_spec_end_tag_bounds;
use crate::tag::lemma_spec_start_tag_bounds;
use crate::tag::opt_view;
use crate::tag::parse_end_tag;
use crate::tag::parse_start_tag;
use crate::tag::spec_end_tag;
use crate::tag::spec_start_tag;
use crate::tag::ParseFailure;
use crate::tag::StartTag;

verus! {

/// One block extracted from the source document.
#[derive(Debug, PartialEq)]
pub struct Block<'a> {
    /// The parsed start tag.
    pub start_tag: StartTag<'a>,
    /// The start tag as it appears in the source text.
    pub raw_start_tag: &'a str,
    /// The end tag as it appears in the source text.
    pub raw_end_tag: &'a str,
    /// The content of the block, with exactly one leading newline stripped
    /// if the start tag is immediately followed by one.
    pub content: &'a str,
}

/// The shape of a successfully parsed block, as character counts into the
/// input: how long the raw start tag is, whether one newline was stripped
/// after it, how long the content and the raw end tag are, and what the
/// start tag carried.
pub ghost struct SpecBlock {
    /// Characters of the raw start tag.
    pub start_len: nat,
    /// Whether the character right after the start tag is a newline, which
    /// is then not part of the content.
    pub newline: bool,
    /// Characters of the content.
    pub content_len: nat,
    /// Characters of the raw end tag.
    pub end_len: nat,
    /// The start tag's name.
    pub name: Seq<char>,
    /// The start tag's `lang` attribute value.
    pub lang: Option<Seq<char>>,
}

impl SpecBlock {
    /// Where the content starts: after the start tag and the stripped
    /// newline, if any.
    pub open spec fn content_start(self) -> int {
        self.start_len + (if self.newline {
            1int
        } else {
            0int
        })
    }

    /// Where the content ends and the end tag starts.
    pub open spec fn content_end(self) -> int {
        self.content_start() + self.content_len
    }

    /// Where the block ends: the total number of characters it consumed.
    pub open spec fn total(self) -> int {
        self.content_end() + self.end_len
    }
}

/// The block at the head of `s`: the start tag, then one optional newline,
/// then the content up to the end tag that closes the outermost nesting
/// level of the start tag's name, then that end tag. Each failing step
/// names its error: a bad start tag, an unterminated content scan, or a
/// bad end tag.
pub open spec fn spec_block(s: Seq<char>) -> Result<SpecBlock, ParseFailure> {
    match spec_start_tag(s) {
        None => Err(ParseFailure::MalformedStartTag),
        Some(t) => {
            let n = t.0 as int;
            let nl = n < s.len() && s[n] == '\n';
            let pos = if nl {
                n + 1
            } else {
                n
            };
            match spec_tag_content(t.1, s.skip(pos)) {
                None => Err(ParseFailure::UnterminatedBlock),
                Some(k) => match spec_end_tag(s.skip(pos + k)) {
                    None => Err(ParseFailure::MalformedEndTag),
                    Some(e) => Ok(
                        SpecBlock {
                            start_len: t.0,
                            newline: nl,
                            content_len: k as nat,
                            end_len: e.0,
                            name: t.1,
                            lang: t.2,
                        },
                    ),
                },
            }
        },
    }
}

/// A parsed block lies within the input, with every part in its place.
pub proof fn lemma_spec_block_bounds(s: Seq<char>, b: SpecBlock)
    requires
        spec_block(s) == Ok::<SpecBlock, ParseFailure>(b),
    ensures
        1 <= b.start_len,
        b.start_len <= b.content_start(),
        b.content_start() <= b.content_end(),
        b.content_end() < b.total(),
        b.total() <= s.len(),
{
    lemma_spec_start_tag_bounds(s);
    let t = spec_start_tag(s).unwrap();
    let n = t.0 as int;
    let nl = n < s.len() && s[n] == '\n';
    let pos = if nl {
        n + 1
    } else {
        n
    };
    lemma_spec_tag_content_bounds(t.1, s.skip(pos));
    let k = spec_tag_content(t.1, s.skip(pos)).unwrap();
    lemma_spec_end_tag_bounds(s.skip(pos + k));
}

/// Idempotent reconstruction: the raw start tag, the stripped newline if
/// one was stripped, the content and the raw end tag concatenate back to
/// exactly the span of the source text that the block consumed.
pub proof fn lemma_block_reconstruction(s: Seq<char>, b: SpecBlock)
    requires
        spec_block(s) == Ok::<SpecBlock, ParseFailure>(b),
    ensures
        b.total() <= s.len(),
        b.newline ==> b.start_len < s.len() && s[b.start_len as int] == '\n',
        s.take(b.total()) == s.take(b.start_len as int) + (if b.newline {
            seq!['\n']
        } else {
            Seq::<char>::empty()
        }) + s.subrange(b.content_start(), b.content_end()) + s.subrange(
            b.content_end(),
            b.total(),
        ),
{
    lemma_spec_block_bounds(s, b);
    assert(s.take(b.total()) =~= s.take(b.start_len as int) + (if b.newline {
        seq!['\n']
    } else {
        Seq::<char>::empty()
    }) + s.subrange(b.content_start(), b.content_end()) + s.subrange(b.content_end(), b.total()));
}

/// The final end-tag step of block assembly cannot fail: where the content
/// scan succeeds, the end tag it stopped at parses by construction, so its
/// name is never cross-checked against the start tag again.
pub proof fn lemma_block_end_tag_by_construction(s: Seq<char>)
    ensures
        spec_block(s) != Err::<SpecBlock, ParseFailure>(ParseFailure::MalformedEndTag),
{
    match spec_start_tag(s) {
        None => {},
        Some(t) => {
            lemma_spec_start_tag_bounds(s);
            let n = t.0 as int;
            let nl = n < s.len() && s[n] == '\n';
            let pos = if nl {
                n + 1
            } else {
                n
            };
            lemma_spec_tag_content_bounds(t.1, s.skip(pos));
            lemma_tag_content_closes(t.1, s.skip(pos));
            match spec_tag_content(t.1, s.skip(pos)) {
                None => {},
                Some(k) => {
                    assert(s.skip(pos).skip(k) =~= s.skip(pos + k));
                },
            }
        },
    }
}

/// Parse one block at the head of `input`: a start tag, one optional
/// newline that is stripped from the content, the nesting-aware content,
/// and the end tag that closed it. Returns the rest of the input right
/// after the end tag together with the block; fails with the first
/// sub-step's error.
#[verifier::rlimit(60)]
pub fn parse_block<'a>(input: &'a str) -> (r: Result<(&'a str, Block<'a>), ParseFailure>)
    ensures
        match spec_block(input@) {
            Ok(b) => r matches Ok((rem, blk)) && blk.start_tag.name@ == b.name && opt_view(
                blk.start_tag.lang,
            ) == b.lang && blk.raw_start_tag@ == input@.take(b.start_len as int) && blk.content@
                == input@.subrange(b.content_start(), b.content_end()) && blk.raw_end_tag@
                == input@.subrange(b.content_end(), b.total()) && rem@ == input@.skip(b.total()),
            Err(e) => r == Err::<(&'a str, Block<'a>), ParseFailure>(e),
        },
{
    let len = input.unicode_len();
    let (rem1, start_tag) = match parse_start_tag(input) {
        Ok(p) => p,
        Err(e) => {
            return Err(e);
        },
    };
    proof {
        lemma_spec_start_tag_bounds(input@);
    }
    let rem1_len = rem1.unicode_len();
    let n = len - rem1_len;
    let raw_start_tag = input.substring_char(0, n);
    let has_nl = rem1_len > 0 && rem1.get_char(0) == '\n';
    let pos = if has_nl {
        n + 1
    } else {
        n
    };
    let content_input = input.substring_char(pos, len);
    proof {
        let t = spec_start_tag(input@).unwrap();
        if rem1_len > 0 {
            assert(rem1@[0] == input@[n as int]);
        }
        assert(content_input@ =~= input@.skip(pos as int));
        lemma_spec_tag_content_bounds(t.1, input@.skip(pos as int));
    }
    let (rem2, content) = match parse_tag_content(start_tag.name, content_input) {
        Ok(p) => p,
        Err(_) => {
            return Err(ParseFailure::UnterminatedBlock);
        },
    };
    proof {
        let t = spec_start_tag(input@).unwrap();
        let k = spec_tag_content(t.1, input@.skip(pos as int)).unwrap();
        assert(content@ =~= input@.subrange(pos as int, pos + k));
        assert(rem2@ =~= input@.skip(pos + k));
        lemma_spec_end_tag_bounds(rem2@);
    }
    let (rem3, _end_name) = match parse_end_tag(rem2) {
        Ok(p) => p,
        Err(_) => {
            return Err(ParseFailure::MalformedEndTag);
        },
    };
    let rem2_len = rem2.unicode_len();
    let rem3_len = rem3.unicode_len();
    let m = rem2_len - rem3_len;
    let raw_end_tag = rem2.substring_char(0, m);
    proof {
        let t = spec_start_tag(input@).unwrap();
        let k = spec_tag_content(t.1, input@.skip(pos as int)).unwrap();
        assert(raw_end_tag@ =~= input@.subrange(pos + k, pos + k + m));
        assert(rem3@ =~= input@.skip(pos + k + m));
    }
    Ok((rem3, Block { start_tag, raw_start_tag, raw_end_tag, content }))
}

} // verus!
