//! The stream counter: bytes, Unicode scalar values, lines and
//! whitespace-delimited words of a text, with field-wise aggregation across
//! sources.

use vstd::prelude::*;
use vstd::utf8::encode_utf8;
use crate::chars::is_space;
use crate::chars::is_space_char;
use crate::chars::str_chars;
use crate::fmt::spec_pad_left;
use crate::fmt::spec_decimal;
use crate::fmt::usize_to_string;
use crate::fmt::format_field;

verus! {

/// The number of `'\n'` characters in `s`.
pub open spec fn newline_count(s: Seq<char>) -> nat
    decreases s.len(),
{
    if s.len() == 0 {
        0
    } else {
        newline_count(s.drop_last()) + (if s.last() == '\n' {
            1nat
        } else {
            0nat
        })
    }
}

/// The number of lines of `s`: one per terminator, plus one for a trailing
/// partial line with content.
pub open spec fn line_count(s: Seq<char>) -> nat {
    newline_count(s) + (if s.len() > 0 && s.last() != '\n' {
        1nat
    } else {
        0nat
    })
}

/// Position `i` starts a maximal run of non-whitespace characters in `s`.
pub open spec fn is_word_start(s: Seq<char>, i: int) -> bool {
    &&& 0 <= i < s.len()
    &&& !is_space(s[i])
    &&& (i == 0 || is_space(s[i - 1]))
}

/// The number of maximal runs of non-whitespace characters in `s`.
pub open spec fn word_count(s: Seq<char>) -> nat
    decreases s.len(),
{
    if s.len() == 0 {
        0
    } else {
        word_count(s.drop_last()) + (if is_word_start(s, s.len() - 1) {
            1nat
        } else {
            0nat
        })
    }
}

/// The length of `s` encoded as UTF-8.
pub open spec fn byte_count(s: Seq<char>) -> nat {
    encode_utf8(s).len()
}

proof fn lemma_newline_count_le(s: Seq<char>)
    ensures
        newline_count(s) <= s.len(),
    decreases s.len(),
{
    if s.len() > 0 {
        lemma_newline_count_le(s.drop_last());
    }
}

/// The counts of one source: an immutable record produced once per stream.
#[derive(PartialEq, Eq, Structural, Debug, Clone, Copy)]
pub struct FileInfo {
    pub num_bytes: usize,
    pub num_chars: usize,
    pub num_lines: usize,
    pub num_words: usize,
}

/// Counts the bytes, characters, lines and words of `text`.
pub fn count(text: &str) -> (r: FileInfo)
    ensures
        r.num_bytes == byte_count(text@) as usize,
        byte_count(text@) <= usize::MAX ==> r.num_bytes == byte_count(text@),
        r.num_chars == text@.len(),
        r.num_lines == line_count(text@),
        r.num_words == word_count(text@),
{
    let chars = str_chars(text);
    let n = chars.len();
    let num_bytes = text.len();
    let mut nl: usize = 0;
    let mut words: usize = 0;
    let mut in_word = false;
    let mut i: usize = 0;
    while i < n
        invariant
            chars@ == text@,
            n == chars@.len(),
            i <= n,
            nl as nat == newline_count(text@.take(i as int)),
            words as nat == word_count(text@.take(i as int)),
            in_word == (i > 0 && !is_space(text@[i as int - 1])),
            nl <= i,
            words <= i,
        decreases n - i,
    {
        let c = chars[i];
        proof {
            assert(text@.take(i as int + 1).drop_last() =~= text@.take(i as int));
            assert(text@.take(i as int + 1).last() == text@[i as int]);
        }
        if c == '\n' {
            nl += 1;
        }
        if !is_space_char(c) {
            if !in_word {
                words += 1;
            }
            in_word = true;
        } else {
            in_word = false;
        }
        i += 1;
    }
    proof {
        assert(text@.take(n as int) =~= text@);
    }
    let num_lines: usize = if n > 0 && !(chars[n - 1] == '\n') {
        proof {
            assert(text@.last() != '\n');
            assert(newline_count(text@) == newline_count(text@.drop_last()));
            lemma_newline_count_le(text@.drop_last());
        }
        nl + 1
    } else {
        nl
    };
    FileInfo { num_bytes, num_chars: n, num_lines, num_words: words }
}

/// The UTF-8 encoding of a concatenation is the concatenation of the
/// encodings, so the byte count of two sources sums to the byte count of
/// their concatenation.
pub proof fn lemma_encode_utf8_concat(a: Seq<char>, b: Seq<char>)
    ensures
        encode_utf8(a + b) == encode_utf8(a) + encode_utf8(b),
    decreases a.len(),
{
    if a.len() == 0 {
        assert(a + b =~= b);
        assert(encode_utf8(a) + encode_utf8(b) =~= encode_utf8(b));
    } else {
        assert((a + b).drop_first() =~= a.drop_first() + b);
        lemma_encode_utf8_concat(a.drop_first(), b);
        assert((a + b)[0] == a[0]);
        assert(encode_utf8(a + b) =~= encode_utf8(a) + encode_utf8(b));
    }
}

/// The newline count of a concatenation is the sum of the newline counts.
pub proof fn lemma_newline_count_concat(a: Seq<char>, b: Seq<char>)
    ensures
        newline_count(a + b) == newline_count(a) + newline_count(b),
    decreases b.len(),
{
    if b.len() == 0 {
        assert(a + b =~= a);
    } else {
        assert((a + b).drop_last() =~= a + b.drop_last());
        assert((a + b).last() == b.last());
        lemma_newline_count_concat(a, b.drop_last());
    }
}

proof fn lemma_word_count_concat(a: Seq<char>, b: Seq<char>)
    requires
        a.len() == 0 || is_space(a.last()),
    ensures
        word_count(a + b) == word_count(a) + word_count(b),
    decreases b.len(),
{
    if b.len() == 0 {
        assert(a + b =~= a);
    } else {
        assert((a + b).drop_last() =~= a + b.drop_last());
        lemma_word_count_concat(a, b.drop_last());
        let i = a.len() + b.len() - 1;
        assert((a + b)[i] == b[b.len() - 1]);
        if b.len() >= 2 {
            assert((a + b)[i - 1] == b[b.len() - 2]);
        } else if a.len() > 0 {
            assert((a + b)[i - 1] == a.last());
        }
        assert(is_word_start(a + b, i) == is_word_start(b, b.len() - 1));
    }
}

/// Aggregation: counting two sources separately and summing field-wise
/// equals counting their concatenation, provided the first source is empty
/// or ends with a line terminator (a terminator is whitespace, so the word
/// and line totals meet at a clean boundary).  Byte and character counts
/// are additive without any condition; see
/// [`lemma_count_bytes_chars_additive`].
pub proof fn lemma_count_additive(a: Seq<char>, b: Seq<char>)
    requires
        a.len() == 0 || a.last() == '\n',
    ensures
        byte_count(a + b) == byte_count(a) + byte_count(b),
        (a + b).len() == a.len() + b.len(),
        word_count(a + b) == word_count(a) + word_count(b),
        line_count(a + b) == line_count(a) + line_count(b),
{
    lemma_encode_utf8_concat(a, b);
    lemma_newline_count_concat(a, b);
    assert(is_space('\n'));
    lemma_word_count_concat(a, b);
    if a.len() == 0 {
        assert(a + b =~= b);
    } else if b.len() == 0 {
        assert(a + b =~= a);
    } else {
        assert((a + b).last() == b.last());
    }
}

/// Aggregation for the byte and character counts alone: these are additive
/// across any boundary.
pub proof fn lemma_count_bytes_chars_additive(a: Seq<char>, b: Seq<char>)
    ensures
        byte_count(a + b) == byte_count(a) + byte_count(b),
        (a + b).len() == a.len() + b.len(),
{
    lemma_encode_utf8_concat(a, b);
}

impl FileInfo {
    /// Field-wise sum of two count records, `None` when a field would
    /// exceed the machine word.
    pub fn checked_add(&self, other: &FileInfo) -> (r: Option<FileInfo>)
        ensures
            match r {
                Some(t) => {
                    &&& t.num_bytes == self.num_bytes + other.num_bytes
                    &&& t.num_chars == self.num_chars + other.num_chars
                    &&& t.num_lines == self.num_lines + other.num_lines
                    &&& t.num_words == self.num_words + other.num_words
                },
                None => {
                    ||| self.num_bytes + other.num_bytes > usize::MAX
                    ||| self.num_chars + other.num_chars > usize::MAX
                    ||| self.num_lines + other.num_lines > usize::MAX
                    ||| self.num_words + other.num_words > usize::MAX
                },
            },
    {
        match (
            self.num_bytes.checked_add(other.num_bytes),
            self.num_chars.checked_add(other.num_chars),
            self.num_lines.checked_add(other.num_lines),
            self.num_words.checked_add(other.num_words),
        ) {
            (Some(num_bytes), Some(num_chars), Some(num_lines), Some(num_words)) => Some(
                FileInfo { num_bytes, num_chars, num_lines, num_words },
            ),
            _ => None,
        }
    }
}

/// The selection of a counting invocation: which sources to read and which
/// of the four counts to display.
pub struct Args {
    pub files: Vec<String>,
    pub bytes: bool,
    pub chars: bool,
    pub lines: bool,
    pub words: bool,
}

/// Applies the default field selection: when no count was requested, show
/// lines, words and bytes; otherwise keep the request unchanged.
pub fn get_args(args: Args) -> (r: Args)
    ensures
        r.files@ == args.files@,
        (!args.bytes && !args.chars && !args.lines && !args.words) ==> (r.bytes && !r.chars
            && r.lines && r.words),
        (args.bytes || args.chars || args.lines || args.words) ==> (r.bytes == args.bytes
            && r.chars == args.chars && r.lines == args.lines && r.words == args.words),
{
    if !args.bytes && !args.chars && !args.lines && !args.words {
        Args { bytes: true, lines: true, words: true, ..args }
    } else {
        args
    }
}

/// The displayed fields of one count record, in display order: lines,
/// words, bytes, characters, each right-justified in eight columns when
/// selected and absent otherwise.
pub open spec fn spec_count_fields(
    info: FileInfo,
    lines: bool,
    words: bool,
    bytes: bool,
    chars: bool,
) -> Seq<char> {
    (if lines {
        spec_pad_left(spec_decimal(info.num_lines as nat), 8)
    } else {
        Seq::<char>::empty()
    }) + (if words {
        spec_pad_left(spec_decimal(info.num_words as nat), 8)
    } else {
        Seq::<char>::empty()
    }) + (if bytes {
        spec_pad_left(spec_decimal(info.num_bytes as nat), 8)
    } else {
        Seq::<char>::empty()
    }) + (if chars {
        spec_pad_left(spec_decimal(info.num_chars as nat), 8)
    } else {
        Seq::<char>::empty()
    })
}

/// Renders one output line of the counter: the selected fields of `info`,
/// followed by `label` right-justified in eight columns when `show_label`
/// holds (the driver passes the source name, or nothing for standard
/// input).
pub fn count_line(
    info: &FileInfo,
    lines: bool,
    words: bool,
    bytes: bool,
    chars: bool,
    label: &str,
    show_label: bool,
) -> (r: String)
    ensures
        r@ == spec_count_fields(*info, lines, words, bytes, chars) + (if show_label {
            spec_pad_left(label@, 8)
        } else {
            Seq::<char>::empty()
        }),
{
    let mut out = format_field(usize_to_string(info.num_lines).as_str(), lines);
    out.append(format_field(usize_to_string(info.num_words).as_str(), words).as_str());
    out.append(format_field(usize_to_string(info.num_bytes).as_str(), bytes).as_str());
    out.append(format_field(usize_to_string(info.num_chars).as_str(), chars).as_str());
    out.append(format_field(label, show_label).as_str());
    out
}

} // verus!
