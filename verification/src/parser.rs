//! The line records of a `.env` file and the parser that produces them.

use crate::references::{
    extract_variable_reference, reference_names, reference_pattern, regex_compiles, ParseError,
};
use crate::text::{
    chars_of, chars_start_with, find_from, index_of, lemma_find_from, lines_from, split_lines,
    starts_with, string_of, trim, trim_end, trim_end_bound, trim_range,
};
use vstd::prelude::*;
use vstd::string::*;

verus! {

/// One physical line of a `.env` file, classified.
#[derive(Debug, Clone, PartialEq, Eq)]
pub enum Line {
    /// A line whose first non-whitespace character is `#`; the text is kept
    /// trimmed, with the `#`.
    Comment(String),
    /// A line that is blank after trimming.
    Empty,
    /// An assignment `key=value`.
    KeyValue {
        /// What stands before the first `=`, as written: untrimmed, and with
        /// `export ` where the line has it.
        key: String,
        /// What stands behind the first `=`, up to the inline comment.
        value: String,
        /// The number of the line in its file, counted from one.
        line: usize,
        /// The trimmed text from the first `#` outside quotes on.
        inline_comment: Option<String>,
        /// The names that the content refers to as `${NAME}`.
        references: Vec<String>,
        /// Whether the trimmed line begins with `export `.
        has_export: bool,
    },
    /// A line that is neither blank, nor a comment, nor an assignment.
    Invalid {
        /// The trimmed line.
        content: String,
        /// The number of the line in its file, counted from one.
        line: usize,
    },
}

/// The mathematical value of a [`Line`].
pub ghost enum LineView {
    Comment(Seq<char>),
    Empty,
    KeyValue {
        key: Seq<char>,
        value: Seq<char>,
        line: nat,
        inline_comment: Option<Seq<char>>,
        references: Seq<Seq<char>>,
        has_export: bool,
    },
    Invalid { content: Seq<char>, line: nat },
}

impl View for Line {
    type V = LineView;

    open spec fn view(&self) -> LineView {
        match self {
            Line::Comment(text) => LineView::Comment(text@),
            Line::Empty => LineView::Empty,
            Line::KeyValue { key, value, line, inline_comment, references, has_export } => {
                LineView::KeyValue {
                    key: key@,
                    value: value@,
                    line: *line as nat,
                    inline_comment: inline_comment.deep_view(),
                    references: references.deep_view(),
                    has_export: *has_export,
                }
            },
            Line::Invalid { content, line } => LineView::Invalid {
                content: content@,
                line: *line as nat,
            },
        }
    }
}

impl DeepView for Line {
    type V = LineView;

    open spec fn deep_view(&self) -> LineView {
        self@
    }
}

/// The keys of the assignments among `lines`, in order, as written.
pub open spec fn defined_keys(lines: Seq<LineView>) -> Seq<Seq<char>>
    decreases lines.len(),
{
    if lines.len() == 0 {
        Seq::empty()
    } else {
        match lines.last() {
            LineView::KeyValue { key, .. } => defined_keys(lines.drop_last()).push(key),
            _ => defined_keys(lines.drop_last()),
        }
    }
}

/// Whether two lines of `lines` assign the same key.
pub open spec fn has_duplicate_key(lines: Seq<LineView>) -> bool {
    exists|i: int, j: int|
        0 <= i < j < lines.len() && #[trigger] lines[i] is KeyValue && #[trigger] lines[j]
            is KeyValue && lines[i]->key == lines[j]->key
}

/// The keys of the assignments among `parsed_lines`, in order.
pub fn get_keys(parsed_lines: &[Line]) -> (keys: Vec<String>)
    ensures
        keys.deep_view() == defined_keys(parsed_lines.deep_view()),
{
    let ghost all = parsed_lines.deep_view();
    let mut keys: Vec<String> = Vec::new();
    let mut i: usize = 0;
    assert(keys.deep_view() =~= defined_keys(all.take(0)));
    while i < parsed_lines.len()
        invariant
            i <= parsed_lines.len(),
            all == parsed_lines.deep_view(),
            keys.deep_view() == defined_keys(all.take(i as int)),
        decreases parsed_lines.len() - i,
    {
        assert(all.take(i + 1).drop_last() =~= all.take(i as int));
        assert(all.take(i + 1).last() == parsed_lines[i as int]@);
        if let Line::KeyValue { key, .. } = &parsed_lines[i] {
            let ghost before = keys.deep_view();
            keys.push(key.clone());
            assert(keys.deep_view() =~= before.push(key@));
        }
        i += 1;
    }
    assert(all.take(parsed_lines.len() as int) =~= all);
    keys
}

/// Where a scan for an inline comment stands: inside which quotes, and
/// whether the next character is escaped.
pub ghost struct ScanState {
    pub quote: Option<char>,
    pub escaped: bool,
}

/// The state after `c`. An escaped character changes nothing but the escape;
/// a backslash escapes the next character; a quote opens a quoted span, or
/// closes the span that the same quote opened.
pub open spec fn scan_step(st: ScanState, c: char) -> ScanState {
    if st.escaped {
        ScanState { quote: st.quote, escaped: false }
    } else if c == '\\' {
        ScanState { quote: st.quote, escaped: true }
    } else if c == '"' || c == '\'' {
        match st.quote {
            None => ScanState { quote: Some(c), escaped: false },
            Some(q) => if q == c {
                ScanState { quote: None, escaped: false }
            } else {
                st
            },
        }
    } else {
        st
    }
}

/// The state before the character at `i`.
pub open spec fn scan_state(s: Seq<char>, i: int) -> ScanState
    decreases i,
{
    if i <= 0 {
        ScanState { quote: None, escaped: false }
    } else {
        scan_step(scan_state(s, i - 1), s[i - 1])
    }
}

/// Whether an inline comment may begin at `i`: with a `#` that is neither
/// escaped nor inside quotes.
pub open spec fn starts_comment(s: Seq<char>, i: int) -> bool {
    &&& 0 <= i < s.len()
    &&& s[i] == '#'
    &&& !scan_state(s, i).escaped
    &&& scan_state(s, i).quote is None
}

/// The first index at or after `from` where a comment may begin, or the
/// length of `s` when there is none.
pub open spec fn comment_from(s: Seq<char>, from: int) -> int
    decreases s.len() - from,
{
    if from < 0 || from >= s.len() {
        s.len() as int
    } else if starts_comment(s, from) {
        from
    } else {
        comment_from(s, from + 1)
    }
}

/// Where the inline comment of `s` begins, or the length of `s` when it has
/// none.
pub open spec fn comment_start(s: Seq<char>) -> int {
    comment_from(s, 0)
}

/// `s` parted into content and inline comment: the content is what stands
/// before the comment, without trailing whitespace; the comment is trimmed.
pub open spec fn split_comment(s: Seq<char>) -> (Seq<char>, Option<Seq<char>>) {
    let i = comment_start(s);
    if i < s.len() {
        (trim_end(s.take(i)), Some(trim(s.skip(i))))
    } else {
        (s, None)
    }
}

/// The first comment start at or after `from` has none between `from` and
/// itself.
pub proof fn lemma_comment_from(s: Seq<char>, from: int)
    requires
        0 <= from <= s.len(),
    ensures
        from <= comment_from(s, from) <= s.len(),
        forall|j: int| from <= j < comment_from(s, from) ==> !starts_comment(s, j),
        comment_from(s, from) < s.len() ==> starts_comment(s, comment_from(s, from)),
    decreases s.len() - from,
{
    if from < s.len() && !starts_comment(s, from) {
        lemma_comment_from(s, from + 1);
    }
}

/// Parts `line` into its content and its inline comment, if it has one.
pub fn parse_inline_comment(line: &str) -> (r: (&str, Option<&str>))
    ensures
        r.0@ == split_comment(line@).0,
        match r.1 {
            Some(c) => split_comment(line@).1 == Some(c@),
            None => split_comment(line@).1 is None,
        },
{
    let v = chars_of(line);
    let n = v.len();
    let mut in_quotes = false;
    let mut quote_char = ' ';
    let mut escaped = false;
    let mut i: usize = 0;
    while i < n
        invariant
            i <= n == v.len(),
            v@ == line@,
            comment_start(v@) == comment_from(v@, i as int),
            scan_state(v@, i as int) == (ScanState {
                quote: if in_quotes {
                    Some(quote_char)
                } else {
                    None
                },
                escaped,
            }),
        decreases n - i,
    {
        let ch = v[i];
        if escaped {
            escaped = false;
        } else if ch == '\\' {
            escaped = true;
        } else {
            if ch == '"' || ch == '\'' {
                if !in_quotes {
                    in_quotes = true;
                    quote_char = ch;
                } else if ch == quote_char {
                    in_quotes = false;
                }
            }
            if ch == '#' && !in_quotes {
                let end = trim_end_bound(&v, 0, i);
                let (a, b) = trim_range(&v, i, n);
                assert(v@.subrange(0, i as int) =~= v@.take(i as int));
                assert(v@.subrange(i as int, n as int) =~= v@.skip(i as int));
                return (line.substring_char(0, end), Some(line.substring_char(a, b)));
            }
        }
        i += 1;
    }
    (line, None)
}

/// The record of the line `raw`, which is line `number` of its file, with no
/// references filled in.
///
/// A line that is blank after trimming is `Empty`; one that then begins with
/// `#` is a `Comment`. Any other line is parted into content and inline
/// comment, and the content at its first `=` into key and value. It is
/// `Invalid` where there is no `=`, where the key is blank, or where the value
/// is blank and no inline comment follows.
pub open spec fn classify_spec(raw: Seq<char>, number: nat) -> LineView {
    let t = trim(raw);
    if t.len() == 0 {
        LineView::Empty
    } else if t[0] == '#' {
        LineView::Comment(t)
    } else {
        let (content, comment) = split_comment(t);
        let at = index_of(content, '=');
        if at == content.len() {
            LineView::Invalid { content: t, line: number }
        } else {
            let key = content.take(at);
            let value = content.skip(at + 1);
            if trim(key).len() == 0 || (trim(value).len() == 0 && comment is None) {
                LineView::Invalid { content: t, line: number }
            } else {
                LineView::KeyValue {
                    key,
                    value,
                    line: number,
                    inline_comment: comment,
                    references: Seq::empty(),
                    has_export: starts_with(t, "export "@),
                }
            }
        }
    }
}

/// The text of `raw` in which references are looked for: the trimmed line
/// without its inline comment.
pub open spec fn line_content(raw: Seq<char>) -> Seq<char> {
    split_comment(trim(raw)).0
}

/// `record` with `names` as its references, where it is an assignment.
pub open spec fn with_references_spec(record: LineView, names: Seq<Seq<char>>) -> LineView {
    match record {
        LineView::KeyValue { key, value, line, inline_comment, references, has_export } => {
            LineView::KeyValue { key, value, line, inline_comment, references: names, has_export }
        },
        other => other,
    }
}

/// The record of the line `raw`, which is line `number` of its file: the
/// line classified, with the names that its content refers to.
pub open spec fn parse_line_spec(raw: Seq<char>, number: nat) -> LineView {
    with_references_spec(classify_spec(raw, number), reference_names(line_content(raw)))
}

/// The records of the lines of `content`, numbered from one.
pub open spec fn parse_spec(content: Seq<char>) -> Seq<LineView> {
    let lines = split_lines(content);
    Seq::new(lines.len(), |i: int| parse_line_spec(lines[i], (i + 1) as nat))
}

/// Whether some line of `content` is an assignment.
pub open spec fn has_assignment(content: Seq<char>) -> bool {
    let lines = split_lines(content);
    exists|i: int|
        0 <= i < lines.len() && #[trigger] classify_spec(lines[i], (i + 1) as nat) is KeyValue
}

/// An owned copy of `text`, where there is one.
fn owned(text: Option<&str>) -> (r: Option<String>)
    ensures
        r.deep_view() == match text {
            Some(t) => Some(t@),
            None => None,
        },
{
    match text {
        Some(t) => Some(t.to_owned()),
        None => None,
    }
}

/// Classifies the line `raw`, which is line `number` of its file. The
/// references of an assignment are left empty.
pub fn classify_line(raw: &str, number: usize) -> (line: Line)
    ensures
        line@ == classify_spec(raw@, number as nat),
{
    let v = chars_of(raw);
    let (a, b) = trim_range(&v, 0, v.len());
    assert(v@.subrange(0, v.len() as int) =~= v@);
    let trimmed = raw.substring_char(a, b);
    if a == b {
        return Line::Empty;
    }
    assert(trimmed@[0] == v@[a as int]);
    if v[a] == '#' {
        return Line::Comment(trimmed.to_owned());
    }
    let (content, comment) = parse_inline_comment(trimmed);
    let c = chars_of(content);
    let mut at: usize = 0;
    while at < c.len() && c[at] != '='
        invariant
            at <= c.len(),
            index_of(c@, '=') == find_from(c@, '=', at as int),
        decreases c.len() - at,
    {
        at += 1;
    }
    if at == c.len() {
        return Line::Invalid { content: trimmed.to_owned(), line: number };
    }
    let (ka, kb) = trim_range(&c, 0, at);
    let (va, vb) = trim_range(&c, at + 1, c.len());
    assert(c@.subrange(0, at as int) =~= c@.take(at as int));
    assert(c@.subrange(at + 1, c.len() as int) =~= c@.skip(at + 1));
    if ka == kb || (va == vb && comment.is_none()) {
        return Line::Invalid { content: trimmed.to_owned(), line: number };
    }
    let prefix = chars_of("export ");
    let t = chars_of(trimmed);
    let references: Vec<String> = Vec::new();
    assert(references.deep_view() =~= Seq::<Seq<char>>::empty());
    Line::KeyValue {
        key: content.substring_char(0, at).to_owned(),
        value: content.substring_char(at + 1, c.len()).to_owned(),
        line: number,
        inline_comment: owned(comment),
        references,
        has_export: chars_start_with(&t, &prefix),
    }
}

/// `record` with `names` as its references, where it is an assignment.
pub fn with_references(record: Line, names: Vec<String>) -> (r: Line)
    ensures
        r@ == with_references_spec(record@, names.deep_view()),
{
    match record {
        Line::KeyValue { key, value, line, inline_comment, references, has_export } => {
            Line::KeyValue { key, value, line, inline_comment, references: names, has_export }
        },
        other => other,
    }
}

/// The content of the assignment `record`: key, `=` and value.
fn content_of(record: &Line) -> (r: String)
    requires
        record@ is KeyValue,
    ensures
        r@ == record@->key + seq!['='] + record@->value,
{
    let mut content = String::new();
    if let Line::KeyValue { key, value, .. } = record {
        content.append(key.as_str());
        content.append("=");
        content.append(value.as_str());
    }
    proof {
        reveal_strlit("=");
    }
    assert(content@ =~= record@->key + seq!['='] + record@->value);
    content
}

/// Parses the line `raw`, which is line `number` of its file. Fails only for
/// an assignment, and only where the regular expression engine rejects the
/// pattern for references.
pub fn parse_line(raw: &str, number: usize) -> (r: Result<Line, ParseError>)
    ensures
        r is Err <==> classify_spec(raw@, number as nat) is KeyValue && !regex_compiles(
            reference_pattern(),
        ),
        r matches Ok(line) ==> line@ == parse_line_spec(raw@, number as nat),
{
    let record = classify_line(raw, number);
    match &record {
        Line::KeyValue { .. } => {
            let content = content_of(&record);
            proof {
                let whole = line_content(raw@);
                lemma_find_from(whole, '=', 0);
                assert(content@ =~= whole);
            }
            match extract_variable_reference(content.as_str()) {
                Ok(names) => Ok(with_references(record, names)),
                Err(e) => Err(e),
            }
        },
        _ => Ok(record),
    }
}

/// Parses `content`, the text of a `.env` file, into one record for each of
/// its lines. Fails only for a text with an assignment, and only where the
/// regular expression engine rejects the pattern for references.
pub fn parse_env_file(content: &str) -> (r: Result<Vec<Line>, ParseError>)
    ensures
        r is Err <==> has_assignment(content@) && !regex_compiles(reference_pattern()),
        r matches Ok(lines) ==> lines.deep_view() == parse_spec(content@),
{
    let v = chars_of(content);
    let n = v.len();
    let ghost all = split_lines(v@);
    let ghost mut done: Seq<Seq<char>> = Seq::empty();
    let mut lines: Vec<Line> = Vec::new();
    let mut start: usize = 0;
    while start < n
        invariant
            start <= n == v.len(),
            v@ == content@,
            all == split_lines(v@),
            all == done + lines_from(v@, start as int),
            done.len() == lines.len() <= start,
            forall|j: int|
                0 <= j < done.len() ==> (#[trigger] lines[j])@ == parse_line_spec(
                    done[j],
                    (j + 1) as nat,
                ),
            regex_compiles(reference_pattern()) || forall|j: int|
                0 <= j < done.len() ==> !(#[trigger] classify_spec(done[j], (j + 1) as nat)
                    is KeyValue),
        decreases n - start,
    {
        let mut end: usize = start;
        while end < n && v[end] != '\n'
            invariant
                start <= end <= n == v.len(),
                find_from(v@, '\n', start as int) == find_from(v@, '\n', end as int),
            decreases n - end,
        {
            end += 1;
        }
        let raw = string_of(&v, start, end);
        let ghost rest = lines_from(v@, end + 1);
        assert(all =~= done.push(raw@) + rest);
        match parse_line(raw.as_str(), lines.len() + 1) {
            Ok(line) => {
                lines.push(line);
            },
            Err(e) => {
                assert(all[done.len() as int] == raw@);
                return Err(e);
            },
        }
        proof {
            done = done.push(raw@);
        }
        if end == n {
            start = n;
            assert(lines_from(v@, n as int) =~= rest);
        } else {
            start = end + 1;
        }
    }
    assert(all =~= done);
    assert(lines.deep_view() =~= parse_spec(content@));
    Ok(lines)
}

} // verus!
