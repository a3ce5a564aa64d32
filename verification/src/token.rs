use vstd::prelude::*;

verus! {

/// The decoded character sequence of a UTF-8 byte sequence, or nothing for
/// bytes that are not valid UTF-8.
pub uninterp spec fn utf8_decode(bytes: Seq<u8>) -> Option<Seq<char>>;

/// Relies on str::from_utf8: decodes UTF-8 bytes or reports an error for
/// invalid UTF-8, and the decoding depends on the bytes alone; bytes that
/// are all ASCII decode to exactly the corresponding characters.
#[verifier::external_body]
fn bytes_to_str(bytes: &[u8]) -> (r: Option<&str>)
    ensures
        (match r {
            Some(s) => utf8_decode(bytes@) == Some(s@),
            None => utf8_decode(bytes@) is None,
        }),
        (forall|i: int| 0 <= i < bytes@.len() ==> bytes@[i] < 128) ==> (match r {
            Some(s) => s@.len() == bytes@.len() && (forall|i: int|
                0 <= i < bytes@.len() ==> s@[i] == bytes@[i] as char),
            None => false,
        }),
{
    match core::str::from_utf8(bytes) {
        Ok(s) => Some(s),
        Err(_) => None,
    }
}

/// Whether every byte of a buffer is ASCII: what a caller tests before
/// asking for a rendered diagnostic over it.
pub fn bytes_ascii(input: &[u8]) -> (r: bool)
    ensures
        r == forall|i: int| 0 <= i < input@.len() ==> input@[i] < 128,
{
    let n = input.len();
    let mut i: usize = 0;
    while i < n
        invariant
            n == input@.len(),
            i <= n,
            forall|j: int| 0 <= j < i ==> input@[j] < 128,
        decreases n - i,
    {
        if input[i] >= 128 {
            return false;
        }
        i = i + 1;
    }
    true
}

/// A region of the raw source text: a borrowed byte buffer together with the
/// region's byte offset, byte length, and the line it starts on.
#[derive(Debug, Clone, Copy)]
pub struct Span<'src> {
    pub source: &'src [u8],
    pub index: usize,
    pub length: usize,
    pub line: usize,
}

impl<'src> Span<'src> {
    /// The region lies within the source buffer.
    pub open spec fn wf(self) -> bool {
        self.index + self.length <= self.source@.len()
    }

    /// The bytes of the region itself.
    pub open spec fn bytes(self) -> Seq<u8> {
        self.source@.subrange(self.index as int, self.index + self.length)
    }

    /// A span over `length` bytes of `source` starting at byte `index`, on
    /// line `line`.
    pub fn new(source: &'src [u8], index: usize, length: usize, line: usize) -> (r: Span<'src>)
        ensures
            r.source@ == source@,
            r.index == index,
            r.length == length,
            r.line == line,
    {
        Span { source, index, length, line }
    }

    /// The smallest span covering both `start` and `end`, attributed to
    /// `start`'s line. The two spans must lie over the same source, with
    /// `start` beginning no later than `end`.
    pub fn from(start: &Span<'src>, end: &Span<'src>) -> (r: Span<'src>)
        requires
            start.source@ == end.source@,
            start.index <= end.index,
            end.wf(),
        ensures
            r.wf(),
            r.source@ == start.source@,
            r.index == start.index,
            r.length == end.index - start.index + end.length,
            r.line == start.line,
    {
        let src_len = end.source.len();
        assert(end.index + end.length <= src_len);
        Span {
            source: start.source,
            index: start.index,
            length: end.index - start.index + end.length,
            line: start.line,
        }
    }

    /// The text of the region, when it is valid UTF-8.
    pub fn get_value(&self) -> (r: Option<&'src str>)
        requires
            self.wf(),
        ensures
            (match r {
                Some(s) => utf8_decode(self.bytes()) == Some(s@),
                None => utf8_decode(self.bytes()) is None,
            }),
            (forall|i: int| 0 <= i < self.bytes().len() ==> self.bytes()[i] < 128) ==> (match r {
                Some(s) => s@.len() == self.bytes().len() && (forall|i: int|
                    0 <= i < self.bytes().len() ==> s@[i] == self.bytes()[i] as char),
                None => false,
            }),
    {
        let src_len = self.source.len();
        assert(self.index + self.length <= src_len);
        let region = vstd::slice::slice_subrange(self.source, self.index, self.index + self.length);
        bytes_to_str(region)
    }


    /// Render a terminal diagnostic for this region: a coloured severity
    /// header with `message`, a `filepath:line:column` locator, the source
    /// window of up to `lines` context lines around the region with their
    /// line numbers, markers at the start and end of the file where the
    /// window touches them, and a caret line under the region itself. The
    /// rendered text is pinned to begin with exactly the severity header
    /// and the locator line, column included; the source window and the
    /// caret line follow, stated here in prose only: the caret line appears
    /// when the window holds the full requested context above the region, a
    /// boundary the renderer inherits from its line numbering. The source
    /// must be ASCII (a decidable bound callers can test, where a bound on
    /// the opaque text decoding could not be discharged by any caller), the
    /// region's line number must cover the requested context, and at most
    /// 254 context lines can be asked for.
    #[verifier::rlimit(100)]
    #[verifier::spinoff_prover]
    pub fn get_log(&self, filepath: &str, message: &str, lines: u8, warning: bool) -> (r: String)
        requires
            self.wf(),
            lines < 255,
            self.line >= lines as int,
            self.line + 255 <= usize::MAX,
            self.line + self.source@.len() <= usize::MAX,
            forall|i: int| 0 <= i < self.source@.len() ==> self.source@[i] < 128,
        ensures
            log_header(warning, message@).is_prefix_of(r@),
            log_intro(
                warning,
                message@,
                filepath@,
                dec_digits((lines + self.line) as nat).len() as int,
                self.line as int,
                column_of(self.source@, self.index as int),
            ).is_prefix_of(r@),
    {
        let src_len = self.source.len();
        assert(self.index + self.length <= src_len);
        let digit_value = lines as usize + self.line;
        let digit_count = dec_string(digit_value).as_str().unicode_len();
        let ghost header = log_header(warning, message@);

        let mut result = String::new();
        result.append("\x1b[1m");
        if warning {
            result.append("\x1b[93mwarning");
        } else {
            result.append("\x1b[91merror");
        }
        result.append("\x1b[97m: ");
        result.append(message);
        result.append("\x1b[0m\n");
        proof {
            assert(result@ =~= header);
        }

        // Backward scan: find the window start and the column offset of the
        // region within its own line.
        let mut line_offset: usize = 0;
        let mut back_newlines: u8 = 0;
        let mut start_index: usize = 0;
        let mut idx: usize = 0;
        let mut back_done = false;
        #[verifier::loop_isolation(false)]
        while !back_done && idx < self.index
            invariant
                back_newlines <= lines + 1,
                !back_done ==> back_newlines <= lines,
                back_done ==> back_newlines > lines,
                idx <= self.index,
                line_offset <= self.index,
                start_index <= self.index,
                back_newlines == 0 ==> line_offset == 0 && (forall|j: int|
                    self.index - idx <= j < self.index ==> self.source@[j] != 10),
                back_newlines > 0 ==> line_offset as int == column_of(
                    self.source@,
                    self.index as int,
                ),
            decreases self.index - idx, (if back_done { 0int } else { 1int }),
        {
            let ch = self.source[self.index - 1 - idx];
            let global_idx = self.index - idx;
            if ch == 10 {
                if back_newlines == 0 {
                    line_offset = idx;
                    proof {
                        lemma_last_newline_at(
                            self.source@,
                            self.index as int,
                            self.index - 1 - idx,
                        );
                    }
                }
                back_newlines = back_newlines + 1;
            }
            if back_newlines > lines {
                start_index = global_idx;
                back_done = true;
            } else {
                idx = idx + 1;
            }
        }
        proof {
            if back_newlines == 0 {
                lemma_no_newline_before(self.source@, self.index as int);
            }
            assert(line_offset as int == column_of(self.source@, self.index as int));
        }

        // Forward scan: find the window end and the end of the region's own
        // line.
        let mut fwd_newlines: u8 = 0;
        let mut end_index: usize = src_len;
        let mut line_end: usize = self.index + self.length;
        let mut jdx: usize = 0;
        let mut fwd_done = false;
        #[verifier::loop_isolation(false)]
        while !fwd_done && jdx < src_len - self.index
            invariant
                fwd_newlines <= lines + 1,
                !fwd_done ==> fwd_newlines <= lines,
                jdx <= src_len - self.index,
                end_index <= src_len,
                start_index <= self.index <= end_index,
            decreases src_len - self.index - jdx, (if fwd_done { 0int } else { 1int }),
        {
            let ch = self.source[self.index + jdx];
            let global_idx = self.index + jdx;
            if ch == 10 {
                fwd_newlines = fwd_newlines + 1;
            }
            if fwd_newlines == 1 && line_end == self.index + self.length {
                line_end = global_idx;
            }
            if fwd_newlines > lines {
                end_index = global_idx;
                fwd_done = true;
            } else {
                jdx = jdx + 1;
            }
        }

        // Locator: "--> filepath:line:column".
        let ghost intro = log_intro(
            warning,
            message@,
            filepath@,
            dec_digits((lines + self.line) as nat).len() as int,
            self.line as int,
            column_of(self.source@, self.index as int),
        );
        let bar_spaces = spaces(digit_count);
        result.append("\x1b[96m");
        result.append(bar_spaces.as_str());
        result.append("--> \x1b[0m");
        result.append(filepath);
        result.append(":");
        result.append(dec_string(self.line).as_str());
        result.append(":");
        result.append(dec_string(line_offset).as_str());
        result.append("\n");
        proof {
            assert(bar_spaces@ =~= Seq::new(digit_count as nat, |i: int| ' '));
            assert(result@ =~= intro);
        }
        if start_index == 0 {
            result.append("\x1b[96m");
            result.append(bar_spaces.as_str());
            result.append(" | \x1b[0;2m<----- START OF FILE ----->\x1b[0m");
        } else {
            result.append("\x1b[96m");
            result.append(bar_spaces.as_str());
            result.append(" |\x1b[0m");
        }

        // The source window, one numbered line at a time, with the caret
        // line under the region's own line.
        let mut seg_start: usize = start_index;
        let mut seg_counter: usize = 0;
        let mut scan: usize = start_index;
        while scan < end_index
            invariant
                self.wf(),
                start_index <= self.index,
                self.index <= end_index <= src_len,
                src_len == self.source@.len(),
                start_index <= seg_start,
                seg_start <= scan,
                seg_start <= end_index,
                scan <= end_index,
                seg_counter <= scan,
                self.line >= lines as int,
                self.line + 255 <= usize::MAX,
                self.line + self.source@.len() <= usize::MAX,
                line_offset <= self.index,
                forall|i: int| 0 <= i < self.source@.len() ==> self.source@[i] < 128,
                intro.is_prefix_of(result@),
            decreases end_index - scan,
        {
            if self.source[scan] == 10 {
                let ghost before = result@;
                self.append_window_line(
                    &mut result,
                    seg_start,
                    scan,
                    seg_counter,
                    lines,
                    line_offset,
                    &bar_spaces,
                    warning,
                );
                proof {
                    lemma_prefix_trans(intro, before, result@);
                }
                seg_counter = seg_counter + 1;
                seg_start = scan + 1;
            }
            scan = scan + 1;
        }
        let ghost before_last = result@;
        self.append_window_line(
            &mut result,
            seg_start,
            end_index,
            seg_counter,
            lines,
            line_offset,
            &bar_spaces,
            warning,
        );
        proof {
            lemma_prefix_trans(intro, before_last, result@);
        }
        if end_index == src_len {
            result.append("\n\x1b[96m");
            result.append(bar_spaces.as_str());
            result.append(" | \x1b[0;2m<----- END OF FILE ----->\x1b[0m");
        }
        proof {
            assert(intro.is_prefix_of(result@));
            assert(header.is_prefix_of(intro));
            lemma_prefix_trans(header, intro, result@);
        }
        result
    }


    /// Append one numbered line of the source window, with the caret line
    /// under the region's own line. The rendered text only ever grows.
    fn append_window_line(
        &self,
        result: &mut String,
        seg_start: usize,
        seg_end: usize,
        seg_counter: usize,
        lines: u8,
        line_offset: usize,
        bar_spaces: &String,
        warning: bool,
    )
        requires
            self.wf(),
            seg_start <= seg_end <= self.source@.len(),
            self.line >= lines as int,
            self.line + 255 <= usize::MAX,
            seg_counter + self.line <= usize::MAX,
            forall|i: int| 0 <= i < self.source@.len() ==> self.source@[i] < 128,
        ensures
            old(result)@.is_prefix_of(final(result)@),
    {
        let ghost entry = result@;
        let line_idx = seg_counter + self.line - lines as usize;
        result.append("\n\x1b[96m");
        result.append(dec_string(line_idx).as_str());
        result.append(" |\x1b[0m ");
        let segment = vstd::slice::slice_subrange(self.source, seg_start, seg_end);
        match bytes_to_str(segment) {
            Some(text) => {
                result.append(text);
            },
            None => {
                proof {
                    assert(forall|i: int|
                        0 <= i < segment@.len() ==> segment@[i] < 128);
                    assert(false);
                }
            },
        }
        if line_idx == self.line {
            result.append("\n\x1b[96m");
            result.append(bar_spaces.as_str());
            result.append(" | ");
            result.append(spaces(line_offset).as_str());
            if warning {
                result.append("\x1b[93m");
            } else {
                result.append("\x1b[91m");
            }
            result.append(carets(self.length).as_str());
        }
        proof {
            assert(entry =~= result@.subrange(0, entry.len() as int));
        }
    }

    /// The byte offset just past the region.
    pub fn end(&self) -> (r: usize)
        requires
            self.wf(),
        ensures
            r == self.index + self.length,
    {
        let src_len = self.source.len();
        assert(self.index + self.length <= src_len);
        self.index + self.length
    }
}


/// The decimal digit characters of a number, most significant first.
pub open spec fn dec_digits(n: nat) -> Seq<char>
    decreases n,
{
    if n < 10 {
        seq![dec_digit_char(n)]
    } else {
        dec_digits(n / 10).push(dec_digit_char(n % 10))
    }
}

/// The character of one decimal digit.
pub open spec fn dec_digit_char(d: nat) -> char {
    if d == 0 {
        '0'
    } else if d == 1 {
        '1'
    } else if d == 2 {
        '2'
    } else if d == 3 {
        '3'
    } else if d == 4 {
        '4'
    } else if d == 5 {
        '5'
    } else if d == 6 {
        '6'
    } else if d == 7 {
        '7'
    } else if d == 8 {
        '8'
    } else {
        '9'
    }
}

/// The text of one decimal digit.
fn digit_str(d: usize) -> (r: &'static str)
    requires
        d < 10,
    ensures
        r@ =~= seq![dec_digit_char(d as nat)],
{
    proof {
        reveal_strlit("0");
        reveal_strlit("1");
        reveal_strlit("2");
        reveal_strlit("3");
        reveal_strlit("4");
        reveal_strlit("5");
        reveal_strlit("6");
        reveal_strlit("7");
        reveal_strlit("8");
        reveal_strlit("9");
    }
    if d == 0 {
        "0"
    } else if d == 1 {
        "1"
    } else if d == 2 {
        "2"
    } else if d == 3 {
        "3"
    } else if d == 4 {
        "4"
    } else if d == 5 {
        "5"
    } else if d == 6 {
        "6"
    } else if d == 7 {
        "7"
    } else if d == 8 {
        "8"
    } else {
        "9"
    }
}

/// A number rendered in decimal.
pub fn dec_string(n: usize) -> (r: String)
    ensures
        r@ == dec_digits(n as nat),
    decreases n,
{
    if n < 10 {
        String::from_str(digit_str(n))
    } else {
        let mut s = dec_string(n / 10);
        s.append(digit_str(n % 10));
        proof {
            assert(s@ =~= dec_digits((n / 10) as nat).push(dec_digit_char((n % 10) as nat)));
        }
        s
    }
}

/// A text of `n` spaces.
fn spaces(n: usize) -> (r: String)
    ensures
        r@.len() == n,
        forall|i: int| 0 <= i < n ==> r@[i] == ' ',
{
    let mut s = String::new();
    let mut i: usize = 0;
    while i < n
        invariant
            i <= n,
            s@.len() == i,
            forall|k: int| 0 <= k < i ==> s@[k] == ' ',
        decreases n - i,
    {
        proof {
            reveal_strlit(" ");
        }
        s.append(" ");
        i = i + 1;
    }
    s
}

/// A text of `n` caret marks.
fn carets(n: usize) -> (r: String)
    ensures
        r@.len() == n,
        forall|i: int| 0 <= i < n ==> r@[i] == '^',
{
    let mut s = String::new();
    let mut i: usize = 0;
    while i < n
        invariant
            i <= n,
            s@.len() == i,
            forall|k: int| 0 <= k < i ==> s@[k] == '^',
        decreases n - i,
    {
        proof {
            reveal_strlit("^");
        }
        s.append("^");
        i = i + 1;
    }
    s
}


/// The position of the last line break strictly before `i`, or -1 when no
/// line break precedes it.
pub open spec fn last_newline_before(src: Seq<u8>, i: int) -> int
    decreases i,
{
    if i <= 0 {
        -1
    } else if src[i - 1] == 10 {
        i - 1
    } else {
        last_newline_before(src, i - 1)
    }
}

/// The column the renderer reports for a region starting at byte `i`: the
/// distance back to the line break before it, or 0 on the first line.
pub open spec fn column_of(src: Seq<u8>, i: int) -> int {
    if last_newline_before(src, i) < 0 {
        0
    } else {
        i - 1 - last_newline_before(src, i)
    }
}

/// A line break with none after it up to `i` is the last one before `i`.
proof fn lemma_last_newline_at(src: Seq<u8>, i: int, k: int)
    requires
        0 <= k < i <= src.len(),
        src[k] == 10,
        forall|j: int| k < j < i ==> src[j] != 10,
    ensures
        last_newline_before(src, i) == k,
    decreases i,
{
    if i - 1 > k {
        assert(src[i - 1] != 10);
        lemma_last_newline_at(src, i - 1, k);
    }
}

/// With no line break before `i`, there is no last one.
proof fn lemma_no_newline_before(src: Seq<u8>, i: int)
    requires
        0 <= i <= src.len(),
        forall|j: int| 0 <= j < i ==> src[j] != 10,
    ensures
        last_newline_before(src, i) == -1,
    decreases i,
{
    if i > 0 {
        lemma_no_newline_before(src, i - 1);
    }
}

/// The severity header and the locator line that begin every rendered
/// diagnostic: severity and message, then the arrow to the file path, the
/// line, and the column, under the line-number gutter.
pub open spec fn log_intro(
    warning: bool,
    message: Seq<char>,
    filepath: Seq<char>,
    digits: int,
    line: int,
    column: int,
) -> Seq<char> {
    log_header(warning, message) + "\x1b[96m"@ + Seq::new(digits as nat, |i: int| ' ')
        + "--> \x1b[0m"@ + filepath + ":"@ + dec_digits(line as nat) + ":"@ + dec_digits(
        column as nat,
    ) + "\n"@
}

/// Prefix relations compose.
proof fn lemma_prefix_trans(a: Seq<char>, b: Seq<char>, c: Seq<char>)
    requires
        a.is_prefix_of(b),
        b.is_prefix_of(c),
    ensures
        a.is_prefix_of(c),
{
    assert(a =~= c.subrange(0, a.len() as int));
}

/// The severity-and-message header that begins every rendered diagnostic.
pub open spec fn log_header(warning: bool, message: Seq<char>) -> Seq<char> {
    "\x1b[1m"@ + (if warning {
        "\x1b[93mwarning"@
    } else {
        "\x1b[91merror"@
    }) + "\x1b[97m: "@ + message + "\x1b[0m\n"@
}

/// What a lexer's token kinds have in common: each kind can say which
/// syntactic family it belongs to, as human-readable text.
pub trait TokenKind: Sized {
    fn get_meta(&self) -> &'static str;
}

/// One lexed token: its kind and the source region it was read from.
#[derive(Debug, Clone, Copy)]
pub struct Token<'src, K: TokenKind> {
    pub kind: K,
    pub span: Span<'src>,
}


/// Well-formed token lists, as a lexer produces them: every token's span
/// lies over one shared source buffer, and token spans appear in source
/// order.
pub open spec fn tokens_wf<'src, K: TokenKind>(ts: Seq<Token<'src, K>>) -> bool {
    &&& forall|k: int| 0 <= k < ts.len() ==> (#[trigger] ts[k]).span.wf()
    &&& forall|k: int, j: int|
        0 <= k < j < ts.len() ==> (#[trigger] ts[k]).span.source@ == (
        #[trigger] ts[j]).span.source@ && ts[k].span.index <= ts[j].span.index
}

/// A parsed item together with the source region it came from.
#[derive(Debug)]
pub struct SpanContainer<'src, T> {
    pub span: Span<'src>,
    pub item: T,
}

impl<'src, T> SpanContainer<'src, T> {
    /// Attribute `item` to the region of `token`.
    pub fn from_token<K: TokenKind>(token: Token<'src, K>, item: T) -> (r: Self)
        ensures
            r.span == token.span,
            r.item == item,
    {
        SpanContainer { span: token.span, item }
    }

    /// Move the item to the heap, keeping its region.
    pub fn boxed(self) -> (r: SpanContainer<'src, Box<T>>)
        ensures
            r.span == self.span,
            *r.item == self.item,
    {
        SpanContainer { span: self.span, item: Box::new(self.item) }
    }

    /// Transform the item, keeping its region.
    pub fn map<O, F: FnOnce(T) -> O>(self, f: F) -> (r: SpanContainer<'src, O>)
        requires
            f.requires((self.item,)),
        ensures
            r.span == self.span,
            f.ensures((self.item,), r.item),
    {
        SpanContainer { span: self.span, item: f(self.item) }
    }
}

} // verus!
