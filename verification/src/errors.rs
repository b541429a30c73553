//! Diagnostics: the error type, how it is rendered, source-line lookup and
//! the "did you mean" suggestion.
use vstd::prelude::*;
use vstd::string::*;
use crate::text::{chars_of, decimal, decimal_chars, decimal_string, string_from_chars};

verus! {

#[derive(Debug, Clone, Copy, PartialEq, Eq)]
pub enum ErrorKind {
    LexerError,
    ParseError,
    SemanticError,
    Warning,
}

#[derive(Debug, Clone)]
pub struct CompileError {
    pub kind: ErrorKind,
    pub message: String,
    pub line: usize,
    pub col: usize,
    pub source_line: String,
    pub suggestion: Option<String>,
}

/// The mathematical value of a `CompileError`.
pub struct ErrorView {
    pub kind: ErrorKind,
    pub message: Seq<char>,
    pub line: nat,
    pub col: nat,
    pub source_line: Seq<char>,
    pub suggestion: Option<Seq<char>>,
}

pub open spec fn opt_string_view(o: Option<String>) -> Option<Seq<char>> {
    match o {
        Some(s) => Some(s@),
        None => None,
    }
}

impl View for CompileError {
    type V = ErrorView;

    open spec fn view(&self) -> ErrorView {
        ErrorView {
            kind: self.kind,
            message: self.message@,
            line: self.line as nat,
            col: self.col as nat,
            source_line: self.source_line@,
            suggestion: opt_string_view(self.suggestion),
        }
    }
}

/// An error without a suggestion.
pub open spec fn error_view(
    kind: ErrorKind,
    message: Seq<char>,
    line: nat,
    col: nat,
    source_line: Seq<char>,
) -> ErrorView {
    ErrorView { kind, message, line, col, source_line, suggestion: None }
}

pub open spec fn spaces(n: nat) -> Seq<char> {
    Seq::new(n, |i: int| ' ')
}

/// How an error is shown to the user:
/// `Error [line L, col C]: message`, then, when the source line is known, the
/// line behind its gutter, a caret line as wide as the gutter, then the
/// suggestion if there is one.
pub open spec fn rendered(e: ErrorView) -> Seq<char> {
    let label = if e.kind == ErrorKind::Warning { "Warning"@ } else { "Error"@ };
    let head = label + " [line "@ + decimal(e.line) + ", col "@ + decimal(e.col) + "]: "@
        + e.message;
    let with_source = if e.source_line.len() > 0 {
        let gutter = decimal(e.line).len() + 5;
        head + "\n\n  "@ + decimal(e.line) + " | "@ + e.source_line + "\n"@ + spaces(gutter)
            + "^"@
    } else {
        head
    };
    match e.suggestion {
        Some(s) => with_source + "\n  "@ + s,
        None => with_source,
    }
}

/// The caret line of a rendered error fits in memory.
pub open spec fn renderable(e: ErrorView) -> bool {
    e.source_line.len() > 0 ==> decimal(e.line).len() + 5 <= usize::MAX
}

impl CompileError {
    pub fn new(
        kind: ErrorKind,
        message: &str,
        line: usize,
        col: usize,
        source_line: &str,
    ) -> (e: CompileError)
        ensures
            e@ == error_view(kind, message@, line as nat, col as nat, source_line@),
    {
        CompileError {
            kind,
            message: String::from_str(message),
            line,
            col,
            source_line: String::from_str(source_line),
            suggestion: None,
        }
    }

    pub fn with_suggestion(self, suggestion: &str) -> (e: CompileError)
        ensures
            e@ == (ErrorView { suggestion: Some(suggestion@), ..self@ }),
    {
        let mut e = self;
        e.suggestion = Some(String::from_str(suggestion));
        e
    }

    pub fn lexer(message: &str, line: usize, col: usize, source_line: &str) -> (e: CompileError)
        ensures
            e@ == error_view(ErrorKind::LexerError, message@, line as nat, col as nat, source_line@),
    {
        Self::new(ErrorKind::LexerError, message, line, col, source_line)
    }

    pub fn parse(message: &str, line: usize, col: usize, source_line: &str) -> (e: CompileError)
        ensures
            e@ == error_view(ErrorKind::ParseError, message@, line as nat, col as nat, source_line@),
    {
        Self::new(ErrorKind::ParseError, message, line, col, source_line)
    }

    pub fn semantic(message: &str, line: usize, col: usize, source_line: &str) -> (e:
        CompileError)
        ensures
            e@ == error_view(
                ErrorKind::SemanticError,
                message@,
                line as nat,
                col as nat,
                source_line@,
            ),
    {
        Self::new(ErrorKind::SemanticError, message, line, col, source_line)
    }

    pub fn warning(message: &str, line: usize, col: usize, source_line: &str) -> (e: CompileError)
        ensures
            e@ == error_view(ErrorKind::Warning, message@, line as nat, col as nat, source_line@),
    {
        Self::new(ErrorKind::Warning, message, line, col, source_line)
    }

    /// The text the command line prints for this error.
    pub fn render(&self) -> (s: String)
        requires
            renderable(self@),
        ensures
            s@ == rendered(self@),
    {
        let label = match self.kind {
            ErrorKind::Warning => "Warning",
            _ => "Error",
        };
        let line_chars = decimal_chars(self.line as u64);
        let line_str = string_from_chars(line_chars.as_slice());
        let col_str = decimal_string(self.col as u64);
        let mut out = String::from_str(label);
        out.append(" [line ");
        out.append(line_str.as_str());
        out.append(", col ");
        out.append(col_str.as_str());
        out.append("]: ");
        out.append(self.message.as_str());
        let ghost head = out@;
        assert(head == rendered_head(self@));
        if !self.source_line.as_str().is_empty() {
            let width = line_chars.len() + 5;
            out.append("\n\n  ");
            out.append(line_str.as_str());
            out.append(" | ");
            out.append(self.source_line.as_str());
            out.append("\n");
            let pad = space_string(width);
            out.append(pad.as_str());
            out.append("^");
        }
        match &self.suggestion {
            Some(s) => {
                out.append("\n  ");
                out.append(s.as_str());
            },
            None => {},
        }
        out
    }
}

pub open spec fn rendered_head(e: ErrorView) -> Seq<char> {
    let label = if e.kind == ErrorKind::Warning { "Warning"@ } else { "Error"@ };
    label + " [line "@ + decimal(e.line) + ", col "@ + decimal(e.col) + "]: "@ + e.message
}

fn space_string(n: usize) -> (s: String)
    ensures
        s@ == spaces(n as nat),
{
    let mut v: Vec<char> = Vec::new();
    let mut i: usize = 0;
    while i < n
        invariant
            i <= n,
            v@ == spaces(i as nat),
        decreases n - i,
    {
        v.push(' ');
        i = i + 1;
        assert(v@ =~= spaces(i as nat));
    }
    string_from_chars(v.as_slice())
}


/// Index of the first line feed at or after `k`, or the length of `s`.
pub open spec fn line_end(s: Seq<char>, k: int) -> int
    decreases s.len() - k,
{
    if k < 0 || k >= s.len() {
        s.len() as int
    } else if s[k] == '\n' {
        k
    } else {
        line_end(s, k + 1)
    }
}

/// Where the `k`-th line (counting from 0) of `s` starts, as `str::lines`
/// splits it: a final line feed does not start a new line.
pub open spec fn nth_line_start(s: Seq<char>, k: nat) -> Option<int>
    decreases k,
{
    if k == 0 {
        if s.len() == 0 { None } else { Some(0int) }
    } else {
        match nth_line_start(s, (k - 1) as nat) {
            Some(st) => {
                let e = line_end(s, st);
                if e + 1 < s.len() { Some(e + 1) } else { None }
            },
            None => None,
        }
    }
}

/// The text of the line starting at `st`, without its terminator
/// (`\n`, or `\r\n`).
pub open spec fn line_text(s: Seq<char>, st: int) -> Seq<char> {
    let e = line_end(s, st);
    let raw = s.subrange(st, e);
    if e < s.len() && raw.len() > 0 && raw.last() == '\r' {
        raw.drop_last()
    } else {
        raw
    }
}

/// Line `line` of `source`, counting from 1 (line 0 is taken as line 1),
/// or nothing when the source has fewer lines.
pub open spec fn source_line_of(source: Seq<char>, line: nat) -> Seq<char> {
    let k: nat = if line == 0 { 0 } else { (line - 1) as nat };
    match nth_line_start(source, k) {
        Some(st) => line_text(source, st),
        None => Seq::empty(),
    }
}

pub(crate) proof fn lemma_line_end_bounds(s: Seq<char>, k: int)
    requires
        0 <= k <= s.len(),
    ensures
        k <= line_end(s, k) <= s.len(),
        line_end(s, k) < s.len() ==> s[line_end(s, k)] == '\n',
        forall|j: int| k <= j < line_end(s, k) ==> s[j] != '\n',
    decreases s.len() - k,
{
    if k < s.len() && s[k] != '\n' {
        lemma_line_end_bounds(s, k + 1);
    }
}

proof fn lemma_nth_line_start_bounds(s: Seq<char>, k: nat)
    ensures
        nth_line_start(s, k) matches Some(st) ==> 0 <= st < s.len(),
    decreases k,
{
    if k > 0 {
        lemma_nth_line_start_bounds(s, (k - 1) as nat);
        if let Some(st) = nth_line_start(s, (k - 1) as nat) {
            lemma_line_end_bounds(s, st);
        }
    }
}

fn find_line_end(s: &Vec<char>, start: usize) -> (e: usize)
    requires
        start <= s@.len(),
    ensures
        e as int == line_end(s@, start as int),
{
    proof {
        lemma_line_end_bounds(s@, start as int);
    }
    let mut k = start;
    while k < s.len() && s[k] != '\n'
        invariant
            start <= k <= s@.len(),
            line_end(s@, k as int) == line_end(s@, start as int),
        decreases s@.len() - k,
    {
        k = k + 1;
    }
    k
}

/// Line `line` of `source` (1-based; 0 is read as 1), or an empty string when
/// the source has fewer lines.
pub fn get_source_line(source: &str, line: usize) -> (r: String)
    ensures
        r@ == source_line_of(source@, line as nat),
{
    let s = chars_of(source);
    let target: usize = if line == 0 { 0 } else { line - 1 };
    if s.len() == 0 {
        return String::new();
    }
    let mut st: usize = 0;
    let mut k: usize = 0;
    while k < target
        invariant
            s@ == source@,
            s@.len() > 0,
            target as nat == (if line == 0 { 0 } else { (line - 1) as nat }),
            k <= target,
            nth_line_start(s@, k as nat) == Some(st as int),
            st < s@.len(),
        decreases target - k,
    {
        let e = find_line_end(&s, st);
        proof {
            lemma_line_end_bounds(s@, st as int);
        }
        if e < s.len() - 1 {
            st = e + 1;
            k = k + 1;
        } else {
            proof {
                assert(((k + 1) as nat - 1) as nat == k as nat);
                assert(nth_line_start(s@, (k + 1) as nat) is None);
                lemma_nth_none_stays(s@, (k + 1) as nat, target as nat);
            }
            return String::new();
        }
    }
    let e = find_line_end(&s, st);
    proof {
        lemma_line_end_bounds(s@, st as int);
    }
    let mut end = e;
    if e < s.len() && e > st && s[e - 1] == '\r' {
        end = e - 1;
    }
    let mut out: Vec<char> = Vec::new();
    let mut j = st;
    while j < end
        invariant
            st <= j <= end <= e <= s@.len(),
            out@ == s@.subrange(st as int, j as int),
        decreases end - j,
    {
        out.push(s[j]);
        j = j + 1;
        assert(out@ =~= s@.subrange(st as int, j as int));
    }
    proof {
        let raw = s@.subrange(st as int, e as int);
        if e < s@.len() && raw.len() > 0 && raw.last() == '\r' {
            assert(out@ =~= raw.drop_last());
        } else {
            assert(out@ =~= raw);
        }
    }
    string_from_chars(out.as_slice())
}

proof fn lemma_nth_none_stays(s: Seq<char>, k: nat, n: nat)
    requires
        nth_line_start(s, k) is None,
        k <= n,
    ensures
        nth_line_start(s, n) is None,
    decreases n - k,
{
    if k < n {
        lemma_nth_none_stays(s, k + 1, n);
    }
}

/// Edit distance (insertions, deletions and substitutions of one character).
pub open spec fn levenshtein_distance(a: Seq<char>, b: Seq<char>) -> nat
    decreases a.len() + b.len(),
{
    if a.len() == 0 {
        b.len()
    } else if b.len() == 0 {
        a.len()
    } else {
        let del = levenshtein_distance(a.drop_last(), b) + 1;
        let ins = levenshtein_distance(a, b.drop_last()) + 1;
        let sub = levenshtein_distance(a.drop_last(), b.drop_last()) + (if a.last() == b.last() {
            0nat
        } else {
            1nat
        });
        min_nat(min_nat(del, ins), sub)
    }
}

/// A word is at distance zero from itself, so an exact match is never
/// suggested.
pub proof fn lemma_distance_to_itself(a: Seq<char>)
    ensures
        levenshtein_distance(a, a) == 0,
    decreases a.len(),
{
    if a.len() > 0 {
        lemma_distance_to_itself(a.drop_last());
    }
}

/// The edit distance is at least the difference of the lengths.
pub proof fn lemma_levenshtein_at_least_length_gap(a: Seq<char>, b: Seq<char>)
    ensures
        levenshtein_distance(a, b) >= a.len() - b.len(),
        levenshtein_distance(a, b) >= b.len() - a.len(),
    decreases a.len() + b.len(),
{
    if a.len() > 0 && b.len() > 0 {
        lemma_levenshtein_at_least_length_gap(a.drop_last(), b);
        lemma_levenshtein_at_least_length_gap(a, b.drop_last());
        lemma_levenshtein_at_least_length_gap(a.drop_last(), b.drop_last());
    }
}

/// The edit distance is zero exactly between equal strings.
pub proof fn lemma_levenshtein_zero_iff_equal(a: Seq<char>, b: Seq<char>)
    ensures
        levenshtein_distance(a, b) == 0 <==> a == b,
    decreases a.len() + b.len(),
{
    lemma_distance_to_itself(a);
    if a.len() > 0 && b.len() > 0 {
        lemma_levenshtein_zero_iff_equal(a.drop_last(), b.drop_last());
        if levenshtein_distance(a, b) == 0 {
            assert(a.drop_last() == b.drop_last());
            assert(a =~= a.drop_last().push(a.last()));
            assert(b =~= b.drop_last().push(b.last()));
        }
    } else if a.len() == 0 && b.len() == 0 {
        assert(a =~= b);
    }
}

/// The edit distance does not depend on the order of its arguments.
pub proof fn lemma_levenshtein_symmetric(a: Seq<char>, b: Seq<char>)
    ensures
        levenshtein_distance(a, b) == levenshtein_distance(b, a),
    decreases a.len() + b.len(),
{
    if a.len() > 0 && b.len() > 0 {
        lemma_levenshtein_symmetric(a.drop_last(), b);
        lemma_levenshtein_symmetric(a, b.drop_last());
        lemma_levenshtein_symmetric(a.drop_last(), b.drop_last());
    }
}

/// One step of an edit script, read from the end of both texts: keep the
/// last character, delete it, insert a character, or replace the last
/// character by another.
pub enum EditStep {
    Keep,
    Delete,
    Insert(char),
    Substitute(char),
}

/// What an edit script makes of `a`: its steps apply from the last one,
/// each to the end of what the earlier steps leave. `None` when a step needs
/// a character that is not there, or characters are left over.
pub open spec fn apply_edits(edits: Seq<EditStep>, a: Seq<char>) -> Option<Seq<char>>
    decreases edits.len(),
{
    if edits.len() == 0 {
        if a.len() == 0 { Some(Seq::empty()) } else { None }
    } else {
        let rest = edits.drop_last();
        match edits.last() {
            EditStep::Keep => if a.len() == 0 {
                None
            } else {
                match apply_edits(rest, a.drop_last()) {
                    Some(b) => Some(b.push(a.last())),
                    None => None,
                }
            },
            EditStep::Delete => if a.len() == 0 {
                None
            } else {
                apply_edits(rest, a.drop_last())
            },
            EditStep::Insert(c) => match apply_edits(rest, a) {
                Some(b) => Some(b.push(c)),
                None => None,
            },
            EditStep::Substitute(c) => if a.len() == 0 {
                None
            } else {
                match apply_edits(rest, a.drop_last()) {
                    Some(b) => Some(b.push(c)),
                    None => None,
                }
            },
        }
    }
}

/// The number of steps of a script that change something.
pub open spec fn edit_cost(edits: Seq<EditStep>) -> nat
    decreases edits.len(),
{
    if edits.len() == 0 {
        0
    } else {
        edit_cost(edits.drop_last()) + (if edits.last() is Keep { 0nat } else { 1nat })
    }
}

/// The last step of a cheapest script from `a` to `b` (not both empty), with
/// the texts that remain before it: the choice the distance makes.
pub open spec fn best_step(a: Seq<char>, b: Seq<char>) -> (Seq<char>, Seq<char>, EditStep) {
    if a.len() == 0 {
        (a, b.drop_last(), EditStep::Insert(b.last()))
    } else if b.len() == 0 {
        (a.drop_last(), b, EditStep::Delete)
    } else {
        let del = levenshtein_distance(a.drop_last(), b) + 1;
        let ins = levenshtein_distance(a, b.drop_last()) + 1;
        let sub = levenshtein_distance(a.drop_last(), b.drop_last()) + (if a.last() == b.last() {
            0nat
        } else {
            1nat
        });
        if sub <= del && sub <= ins {
            (
                a.drop_last(),
                b.drop_last(),
                if a.last() == b.last() {
                    EditStep::Keep
                } else {
                    EditStep::Substitute(b.last())
                },
            )
        } else if del <= ins {
            (a.drop_last(), b, EditStep::Delete)
        } else {
            (a, b.drop_last(), EditStep::Insert(b.last()))
        }
    }
}

/// A cheapest script from `a` to `b`, following the choices of the distance.
pub open spec fn best_edits(a: Seq<char>, b: Seq<char>) -> Seq<EditStep>
    decreases a.len() + b.len(),
{
    if a.len() + b.len() == 0 {
        Seq::empty()
    } else {
        let (a2, b2, step) = best_step(a, b);
        best_edits(a2, b2).push(step)
    }
}

proof fn lemma_edits_lower_bound(edits: Seq<EditStep>, a: Seq<char>)
    ensures
        apply_edits(edits, a) matches Some(b) ==> levenshtein_distance(a, b) <= edit_cost(edits),
    decreases edits.len(),
{
    if edits.len() > 0 {
        let rest = edits.drop_last();
        match edits.last() {
            EditStep::Keep => {
                if a.len() > 0 {
                    lemma_edits_lower_bound(rest, a.drop_last());
                    if let Some(b0) = apply_edits(rest, a.drop_last()) {
                        let b = b0.push(a.last());
                        assert(b.drop_last() =~= b0);
                    }
                }
            },
            EditStep::Delete => {
                if a.len() > 0 {
                    lemma_edits_lower_bound(rest, a.drop_last());
                }
            },
            EditStep::Insert(c) => {
                lemma_edits_lower_bound(rest, a);
                if let Some(b0) = apply_edits(rest, a) {
                    let b = b0.push(c);
                    assert(b.drop_last() =~= b0);
                }
            },
            EditStep::Substitute(c) => {
                if a.len() > 0 {
                    lemma_edits_lower_bound(rest, a.drop_last());
                    if let Some(b0) = apply_edits(rest, a.drop_last()) {
                        let b = b0.push(c);
                        assert(b.drop_last() =~= b0);
                    }
                }
            },
        }
    } else {
        assert(a.len() == 0 ==> levenshtein_distance(a, Seq::<char>::empty()) == 0);
    }
}

proof fn lemma_best_edits(a: Seq<char>, b: Seq<char>)
    ensures
        apply_edits(best_edits(a, b), a) == Some(b),
        edit_cost(best_edits(a, b)) == levenshtein_distance(a, b),
    decreases a.len() + b.len(),
{
    if a.len() + b.len() == 0 {
        assert(b =~= Seq::<char>::empty());
    } else {
        let (a2, b2, step) = best_step(a, b);
        lemma_best_edits(a2, b2);
        let e = best_edits(a, b);
        assert(e == best_edits(a2, b2).push(step));
        assert(e.drop_last() =~= best_edits(a2, b2));
        assert(e.last() == step);
        if b.len() > 0 {
            assert(b.drop_last().push(b.last()) =~= b);
        }
        if a.len() > 0 {
            assert(a.drop_last().push(a.last()) =~= a);
        }
    }
}

/// The edit distance is the least cost of an edit script: no script from
/// `a` to `b` costs less, and `best_edits` turns `a` into `b` at exactly
/// that cost.
pub proof fn lemma_levenshtein_is_least_edits(a: Seq<char>, b: Seq<char>, edits: Seq<EditStep>)
    ensures
        apply_edits(edits, a) == Some(b) ==> levenshtein_distance(a, b) <= edit_cost(edits),
        apply_edits(best_edits(a, b), a) == Some(b),
        edit_cost(best_edits(a, b)) == levenshtein_distance(a, b),
{
    lemma_edits_lower_bound(edits, a);
    lemma_best_edits(a, b);
}

/// Line 0 is read as line 1.
pub proof fn lemma_line_zero_is_line_one(source: Seq<char>)
    ensures
        source_line_of(source, 0) == source_line_of(source, 1),
{
}

pub open spec fn min_nat(x: nat, y: nat) -> nat {
    if x <= y { x } else { y }
}

/// The edit distance is at most the longer length.
pub proof fn lemma_levenshtein_bound(a: Seq<char>, b: Seq<char>)
    ensures
        levenshtein_distance(a, b) <= if a.len() >= b.len() { a.len() } else { b.len() },
    decreases a.len() + b.len(),
{
    if a.len() > 0 && b.len() > 0 {
        lemma_levenshtein_bound(a.drop_last(), b.drop_last());
    }
}

/// The edit distance between the characters of `a` and `b`, computed row by
/// row.
fn levenshtein(a: &str, b: &str) -> (d: usize)
    ensures
        d as nat == levenshtein_distance(a@, b@),
{
    let av = chars_of(a);
    let bv = chars_of(b);
    let m = av.len();
    let n = bv.len();
    let ghost sa = av@;
    let ghost sb = bv@;
    // row[j] = distance(a[..i], b[..j])
    let mut row: Vec<usize> = Vec::new();
    row.push(0);
    let mut j: usize = 0;
    while j < n
        invariant
            j <= n,
            n == sb.len(),
            row@.len() == j + 1,
            forall|k: int|
                0 <= k <= j ==> #[trigger] row@[k] as nat == levenshtein_distance(
                    sa.take(0),
                    sb.take(k),
                ),
        decreases n - j,
    {
        j = j + 1;
        assert(sa.take(0).len() == 0);
        row.push(j);
    }
    let mut i: usize = 0;
    while i < m
        invariant
            i <= m,
            m == sa.len(),
            n == sb.len(),
            sa == av@,
            sb == bv@,
            row@.len() == n + 1,
            forall|k: int|
                0 <= k <= n ==> #[trigger] row@[k] as nat == levenshtein_distance(
                    sa.take(i as int),
                    sb.take(k),
                ),
        decreases m - i,
    {
        i = i + 1;
        let ghost prev = row@;
        let mut next: Vec<usize> = Vec::new();
        proof {
            assert(sb.take(0).len() == 0);
            assert(sa.take(i as int).len() == i);
        }
        next.push(i);
        let mut k: usize = 0;
        while k < n
            invariant
                1 <= i <= m,
                k <= n,
                m == sa.len(),
                n == sb.len(),
                sa == av@,
                sb == bv@,
                prev.len() == n + 1,
                row@ == prev,
                next@.len() == k + 1,
                forall|q: int|
                    0 <= q <= n ==> #[trigger] prev[q] as nat == levenshtein_distance(
                        sa.take(i - 1),
                        sb.take(q),
                    ),
                forall|q: int|
                    0 <= q <= k ==> #[trigger] next@[q] as nat == levenshtein_distance(
                        sa.take(i as int),
                        sb.take(q),
                    ),
            decreases n - k,
        {
            k = k + 1;
            let cost: u128 = if av[i - 1] == bv[k - 1] { 0 } else { 1 };
            let del: u128 = row[k] as u128 + 1;
            let ins: u128 = next[k - 1] as u128 + 1;
            let sub: u128 = row[k - 1] as u128 + cost;
            let mut best = del;
            if ins < best {
                best = ins;
            }
            if sub < best {
                best = sub;
            }
            proof {
                let ai = sa.take(i as int);
                let bk = sb.take(k as int);
                assert(ai.drop_last() =~= sa.take(i - 1));
                assert(bk.drop_last() =~= sb.take(k - 1));
                assert(ai.last() == sa[i - 1]);
                assert(bk.last() == sb[k - 1]);
                lemma_levenshtein_bound(ai, bk);
                assert(best == levenshtein_distance(ai, bk));
            }
            next.push(best as usize);
        }
        row = next;
    }
    proof {
        assert(sa.take(m as int) =~= sa);
        assert(sb.take(n as int) =~= sb);
    }
    row[n]
}


/// What `str::to_lowercase` returns for a string with these characters.
pub uninterp spec fn lowercase(s: Seq<char>) -> Seq<char>;

/// A text of ASCII characters only.
pub open spec fn all_ascii(s: Seq<char>) -> bool {
    forall|i: int| 0 <= i < s.len() ==> (#[trigger] s[i] as u32) < 128
}

/// ASCII lower-casing: `A`..`Z` become `a`..`z`, every other character stays.
pub open spec fn ascii_lowercase(s: Seq<char>) -> Seq<char> {
    s.map_values(
        |c: char|
            if 'A' <= c && c <= 'Z' {
                ((c as u32) + 32) as char
            } else {
                c
            },
    )
}

/// ASCII upper-casing: `a`..`z` become `A`..`Z`, every other character stays.
pub open spec fn ascii_uppercase(s: Seq<char>) -> Seq<char> {
    s.map_values(
        |c: char|
            if 'a' <= c && c <= 'z' {
                ((c as u32) - 32) as char
            } else {
                c
            },
    )
}

/// `str::to_lowercase`: the Unicode lower-case mapping of `s`, which depends on
/// the characters of `s` alone. For ASCII text it is ASCII lower-casing (the
/// Unicode mapping sends `A`..`Z` to `a`..`z` and keeps every other ASCII
/// character); beyond ASCII the mapping is left unstated.
#[verifier::external_body]
pub(crate) fn to_lowercase(s: &str) -> (r: String)
    ensures
        r@ == lowercase(s@),
        all_ascii(s@) ==> r@ == ascii_lowercase(s@),
{
    s.to_lowercase()
}

pub open spec fn str_views(xs: Seq<&str>) -> Seq<Seq<char>> {
    xs.map_values(|x: &str| x@)
}

/// Candidate `i` is near enough to count: not equal, and at most `max` edits away.
pub open spec fn is_near(word: Seq<char>, cands: Seq<Seq<char>>, max: nat, i: int) -> bool {
    0 < levenshtein_distance(word, cands[i]) <= max
}

/// Candidate `i` is the suggestion for `word`: it is near, no near candidate is
/// closer, and every near candidate before it is farther.
pub open spec fn is_best_suggestion(
    word: Seq<char>,
    cands: Seq<Seq<char>>,
    max: nat,
    i: int,
) -> bool {
    &&& 0 <= i < cands.len()
    &&& is_near(word, cands, max, i)
    &&& forall|j: int|
        0 <= j < cands.len() && is_near(word, cands, max, j) ==> levenshtein_distance(
            word,
            cands[i],
        ) <= levenshtein_distance(word, #[trigger] cands[j])
    &&& forall|j: int|
        0 <= j < i && is_near(word, cands, max, j) ==> levenshtein_distance(word, cands[i])
            < levenshtein_distance(word, #[trigger] cands[j])
}

/// The suggestion for `word` among `cands`, if any candidate is near enough.
pub open spec fn suggestion_for(word: Seq<char>, cands: Seq<Seq<char>>, max: nat) -> Option<
    Seq<char>,
> {
    let lower = lowercase(word);
    if exists|i: int| is_best_suggestion(lower, cands, max, i) {
        Some(cands[choose|i: int| is_best_suggestion(lower, cands, max, i)])
    } else {
        None
    }
}

/// At most one candidate is the suggestion.
pub proof fn lemma_best_suggestion_unique(
    word: Seq<char>,
    cands: Seq<Seq<char>>,
    max: nat,
    i: int,
    j: int,
)
    requires
        is_best_suggestion(word, cands, max, i),
        is_best_suggestion(word, cands, max, j),
    ensures
        i == j,
{
    if i < j {
        assert(levenshtein_distance(word, cands[j]) < levenshtein_distance(word, cands[i]));
    } else if j < i {
        assert(levenshtein_distance(word, cands[i]) < levenshtein_distance(word, cands[j]));
    }
}

/// The closest candidate to `input` (compared in lower case) that differs from it
/// by at least one and at most `max_distance` edits; the first one on a tie.
pub fn suggest_closest(input: &str, candidates: &[&str], max_distance: usize) -> (r: Option<
    String,
>)
    ensures
        r is None <==> forall|i: int|
            0 <= i < candidates@.len() ==> !is_near(
                lowercase(input@),
                str_views(candidates@),
                max_distance as nat,
                i,
            ),
        r matches Some(s) ==> exists|i: int|
            is_best_suggestion(lowercase(input@), str_views(candidates@), max_distance as nat, i)
                && s@ == candidates@[i]@,
        opt_string_view(r) == suggestion_for(input@, str_views(candidates@), max_distance as nat),
{
    let lower = to_lowercase(input);
    let ghost word = lower@;
    let ghost cands = str_views(candidates@);
    let ghost max = max_distance as nat;
    let mut best: Option<(usize, usize)> = None;
    let mut i: usize = 0;
    while i < candidates.len()
        invariant
            i <= candidates@.len(),
            word == lower@,
            word == lowercase(input@),
            cands == str_views(candidates@),
            cands.len() == candidates@.len(),
            max == max_distance as nat,
            best is None ==> forall|j: int| 0 <= j < i ==> !is_near(word, cands, max, j),
            best matches Some(b) ==> {
                &&& b.0 < i
                &&& b.1 as nat == levenshtein_distance(word, cands[b.0 as int])
                &&& is_near(word, cands, max, b.0 as int)
                &&& forall|j: int|
                    0 <= j < i && is_near(word, cands, max, j) ==> b.1 <= levenshtein_distance(
                        word,
                        #[trigger] cands[j],
                    )
                &&& forall|j: int|
                    0 <= j < b.0 && is_near(word, cands, max, j) ==> b.1 < levenshtein_distance(
                        word,
                        #[trigger] cands[j],
                    )
            },
        decreases candidates@.len() - i,
    {
        let d = levenshtein(lower.as_str(), candidates[i]);
        assert(cands[i as int] == candidates@[i as int]@);
        if d > 0 && d <= max_distance {
            match best {
                None => {
                    best = Some((i, d));
                },
                Some(b) => {
                    if d < b.1 {
                        best = Some((i, d));
                    }
                },
            }
        }
        i = i + 1;
    }
    match best {
        None => None,
        Some(b) => {
            let c: &str = candidates[b.0];
            proof {
                assert(is_best_suggestion(word, cands, max, b.0 as int));
                let k = choose|k: int| is_best_suggestion(word, cands, max, k);
                lemma_best_suggestion_unique(word, cands, max, k, b.0 as int);
            }
            Some(String::from_str(c))
        },
    }
}

} // verus!
