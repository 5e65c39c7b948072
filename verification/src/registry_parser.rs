//! The decoder registry: resolution by logical name, by file-extension
//! hint, or by auto-detection over a bounded byte sample, followed by
//! the decode of the full input. Because the whole input is in memory,
//! sampling never loses bytes: the decode always runs on all of them.

use crate::base_parser::{detect_format, spec_detect, FormatHint};
use crate::parsers::{all_parsers, ParserKind};
use crate::types::{ParseError, ParsedMessage};
use vstd::prelude::*;
use vstd::string::StringSliceAdditionalSpecFns;

verus! {

/// Size of the byte sample taken for format detection.
pub const SAMPLE_SIZE: usize = 512;

/// The detection sample: the first `SAMPLE_SIZE` bytes.
pub open spec fn sample_of(data: Seq<u8>) -> Seq<u8> {
    if data.len() <= 512 {
        data
    } else {
        data.subrange(0, 512)
    }
}

/// First index whose decoder carries this name, or `-1`.
pub open spec fn name_index(ps: Seq<ParserKind>, name: Seq<char>) -> int
    decreases ps.len(),
{
    if ps.len() == 0 {
        -1
    } else if ps[0].spec_name() == name {
        0
    } else {
        let r = name_index(ps.drop_first(), name);
        if r < 0 {
            -1
        } else {
            r + 1
        }
    }
}

/// First index whose decoder's self-test accepts the sample, or `-1`.
pub open spec fn can_index(ps: Seq<ParserKind>, sample: Seq<u8>) -> int
    decreases ps.len(),
{
    if ps.len() == 0 {
        -1
    } else if ps[0].spec_can(sample) {
        0
    } else {
        let r = can_index(ps.drop_first(), sample);
        if r < 0 {
            -1
        } else {
            r + 1
        }
    }
}

/// First index whose decoder claims the extension, or `-1`.
pub open spec fn ext_index(ps: Seq<ParserKind>, ext: Seq<char>) -> int
    decreases ps.len(),
{
    if ps.len() == 0 {
        -1
    } else if ps[0].spec_has_ext(ext) {
        0
    } else {
        let r = ext_index(ps.drop_first(), ext);
        if r < 0 {
            -1
        } else {
            r + 1
        }
    }
}

proof fn lemma_name_index_char(ps: Seq<ParserKind>, name: Seq<char>, i: int)
    requires
        0 <= i <= ps.len(),
        forall|k: int| 0 <= k < i ==> (#[trigger] ps[k]).spec_name() != name,
        i < ps.len() ==> ps[i].spec_name() == name,
    ensures
        name_index(ps, name) == if i == ps.len() {
            -1
        } else {
            i
        },
    decreases ps.len(),
{
    if ps.len() > 0 {
        if ps[0].spec_name() == name {
            assert(i == 0);
        } else {
            lemma_name_index_char(ps.drop_first(), name, i - 1);
        }
    }
}

proof fn lemma_can_index_char(ps: Seq<ParserKind>, sample: Seq<u8>, i: int)
    requires
        0 <= i <= ps.len(),
        forall|k: int| 0 <= k < i ==> !(#[trigger] ps[k]).spec_can(sample),
        i < ps.len() ==> ps[i].spec_can(sample),
    ensures
        can_index(ps, sample) == if i == ps.len() {
            -1
        } else {
            i
        },
    decreases ps.len(),
{
    if ps.len() > 0 {
        if ps[0].spec_can(sample) {
            assert(i == 0);
        } else {
            lemma_can_index_char(ps.drop_first(), sample, i - 1);
        }
    }
}

proof fn lemma_ext_index_char(ps: Seq<ParserKind>, ext: Seq<char>, i: int)
    requires
        0 <= i <= ps.len(),
        forall|k: int| 0 <= k < i ==> !(#[trigger] ps[k]).spec_has_ext(ext),
        i < ps.len() ==> ps[i].spec_has_ext(ext),
    ensures
        ext_index(ps, ext) == if i == ps.len() {
            -1
        } else {
            i
        },
    decreases ps.len(),
{
    if ps.len() > 0 {
        if ps[0].spec_has_ext(ext) {
            assert(i == 0);
        } else {
            lemma_ext_index_char(ps.drop_first(), ext, i - 1);
        }
    }
}

/// Which decoder auto-detection settles on: the one named by the
/// format hint, or, when the hint is unknown, the first whose
/// self-test accepts the sample; `-1` when none does.
pub open spec fn auto_choice(ps: Seq<ParserKind>, sample: Seq<u8>) -> int {
    match spec_detect(sample) {
        FormatHint::Csv => name_index(ps, "csv"@),
        FormatHint::Ndjson => name_index(ps, "ndjson"@),
        FormatHint::Json => name_index(ps, "json"@),
        FormatHint::Unknown => can_index(ps, sample),
    }
}

/// The extension of a filename: what follows the last `.`, or the
/// whole name when it has no `.`.
pub open spec fn ext_of(f: Seq<char>) -> Seq<char> {
    if (exists|k: int| 0 <= k < f.len() && f[k] == '.') {
        let d = last_dot(f);
        f.subrange(d + 1, f.len() as int)
    } else {
        f
    }
}

/// Index of the last `.` in `f`; meaningful only when one exists.
pub open spec fn last_dot(f: Seq<char>) -> int
    decreases f.len(),
{
    if f.len() == 0 {
        -1
    } else if f[f.len() - 1] == '.' {
        f.len() - 1
    } else {
        last_dot(f.drop_last())
    }
}

proof fn lemma_last_dot_char(f: Seq<char>, i: int)
    requires
        0 <= i < f.len(),
        f[i] == '.',
        forall|k: int| i < k < f.len() ==> f[k] != '.',
    ensures
        last_dot(f) == i,
    decreases f.len(),
{
    if f[f.len() - 1] != '.' {
        lemma_last_dot_char(f.drop_last(), i);
    }
}

/// The decoder registry: an ordered list of decoders.
pub struct ParserRegistry {
    pub parsers: Vec<ParserKind>,
}

impl ParserRegistry {
    /// A registry holding all built-in decoders.
    pub fn new() -> (r: Self)
        ensures
            r.parsers@.len() == 3,
            r.parsers@[0] is Ndjson,
            r.parsers@[1] is Csv,
            r.parsers@[2] is Json,
    {
        ParserRegistry { parsers: all_parsers() }
    }

    /// Appends a decoder; resolution keeps preferring earlier entries.
    pub fn register(&mut self, parser: ParserKind)
        ensures
            final(self).parsers@ == old(self).parsers@.push(parser),
    {
        self.parsers.push(parser);
    }

    /// The first decoder with this logical name.
    pub fn get_parser(&self, name: &str) -> (r: Option<&ParserKind>)
        ensures
            match r {
                Option::Some(p) => {
                    let k = name_index(self.parsers@, name@);
                    0 <= k < self.parsers@.len() && *p == self.parsers@[k]
                },
                Option::None => name_index(self.parsers@, name@) == -1,
            },
    {
        let n = self.parsers.len();
        let mut i: usize = 0;
        while i < n
            invariant
                0 <= i <= n == self.parsers@.len(),
                forall|k: int| 0 <= k < i ==> (#[trigger] self.parsers@[k]).spec_name() != name@,
            decreases n - i,
        {
            if crate::text::str_eq(self.parsers[i].name(), name) {
                proof {
                    lemma_name_index_char(self.parsers@, name@, i as int);
                }
                return Option::Some(&self.parsers[i]);
            }
            i = i + 1;
        }
        proof {
            lemma_name_index_char(self.parsers@, name@, n as int);
        }
        Option::None
    }

    /// The first decoder claiming this file extension.
    pub fn get_parser_by_extension(&self, extension: &str) -> (r: Option<&ParserKind>)
        ensures
            match r {
                Option::Some(p) => {
                    let k = ext_index(self.parsers@, extension@);
                    0 <= k < self.parsers@.len() && *p == self.parsers@[k]
                },
                Option::None => ext_index(self.parsers@, extension@) == -1,
            },
    {
        let n = self.parsers.len();
        let mut i: usize = 0;
        while i < n
            invariant
                0 <= i <= n == self.parsers@.len(),
                forall|k: int|
                    0 <= k < i ==> !(#[trigger] self.parsers@[k]).spec_has_ext(extension@),
            decreases n - i,
        {
            if self.parsers[i].has_extension(extension) {
                proof {
                    lemma_ext_index_char(self.parsers@, extension@, i as int);
                }
                return Option::Some(&self.parsers[i]);
            }
            i = i + 1;
        }
        proof {
            lemma_ext_index_char(self.parsers@, extension@, n as int);
        }
        Option::None
    }

    /// The first decoder whose self-test accepts the sample.
    fn first_can(&self, sample: &[u8]) -> (r: Option<usize>)
        ensures
            match r {
                Option::Some(i) => can_index(self.parsers@, sample@) == i as int && i
                    < self.parsers@.len(),
                Option::None => can_index(self.parsers@, sample@) == -1,
            },
    {
        let n = self.parsers.len();
        let mut i: usize = 0;
        while i < n
            invariant
                0 <= i <= n == self.parsers@.len(),
                forall|k: int| 0 <= k < i ==> !(#[trigger] self.parsers@[k]).spec_can(sample@),
            decreases n - i,
        {
            if self.parsers[i].can_parse(sample) {
                proof {
                    lemma_can_index_char(self.parsers@, sample@, i as int);
                }
                return Option::Some(i);
            }
            i = i + 1;
        }
        proof {
            lemma_can_index_char(self.parsers@, sample@, n as int);
        }
        Option::None
    }

    /// Auto-detects the format from a bounded sample and decodes the
    /// whole input with the decoder that detection settles on; fails
    /// with `FormatUndetected` when none matches.
    pub fn parse_auto(&self, data: &[u8]) -> (r: Result<Vec<ParsedMessage>, ParseError>)
        ensures
            ({
                let k = auto_choice(self.parsers@, sample_of(data@));
                if k < 0 {
                    r matches Err(ParseError::FormatUndetected)
                } else {
                    self.parsers@[k].spec_post(data@, r)
                }
            }),
    {
        let sample: &[u8] = if data.len() > SAMPLE_SIZE {
            &data[0..SAMPLE_SIZE]
        } else {
            data
        };
        proof {
            assert(sample@ == sample_of(data@));
        }
        let format = detect_format(sample);
        let chosen: Option<&ParserKind> = match format {
            FormatHint::Csv => self.get_parser("csv"),
            FormatHint::Ndjson => self.get_parser("ndjson"),
            FormatHint::Json => self.get_parser("json"),
            FormatHint::Unknown => {
                match self.first_can(sample) {
                    Option::Some(i) => Option::Some(&self.parsers[i]),
                    Option::None => Option::None,
                }
            },
        };
        match chosen {
            Option::Some(p) => p.parse(data),
            Option::None => Result::Err(ParseError::FormatUndetected),
        }
    }

    /// Resolves by the filename's extension and decodes with that
    /// decoder; with no match it falls back to auto-detection.
    pub fn parse_with_hint(&self, data: &[u8], filename: &str) -> (r: Result<
        Vec<ParsedMessage>,
        ParseError,
    >)
        ensures
            ({
                let k = ext_index(self.parsers@, ext_of(filename@));
                if 0 <= k {
                    self.parsers@[k].spec_post(data@, r)
                } else {
                    let a = auto_choice(self.parsers@, sample_of(data@));
                    if a < 0 {
                        r matches Err(ParseError::FormatUndetected)
                    } else {
                        self.parsers@[a].spec_post(data@, r)
                    }
                }
            }),
    {
        let fl = filename.unicode_len();
        let mut i: usize = fl;
        // Walk back to the last dot, if any.
        while i > 0 && filename.get_char(i - 1) != '.'
            invariant
                0 <= i <= fl == filename@.len(),
                forall|k: int| i <= k < fl ==> filename@[k] != '.',
            decreases i,
        {
            i = i - 1;
        }
        let extension = if i == 0 {
            // No dot: the whole name is the extension candidate.
            proof {
                assert(ext_of(filename@) == filename@);
            }
            filename
        } else {
            proof {
                lemma_last_dot_char(filename@, i - 1);
                assert(ext_of(filename@) == filename@.subrange(i as int, fl as int));
            }
            filename.substring_char(i, fl)
        };
        match self.get_parser_by_extension(extension) {
            Option::Some(p) => p.parse(data),
            Option::None => self.parse_auto(data),
        }
    }
}

impl Default for ParserRegistry {
    /// Same as `new`: all built-in decoders.
    fn default() -> (r: Self)
        ensures
            r.parsers@.len() == 3,
            r.parsers@[0] is Ndjson,
            r.parsers@[1] is Csv,
            r.parsers@[2] is Json,
    {
        ParserRegistry::new()
    }
}

} // verus!
