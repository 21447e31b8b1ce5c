//! The interactive prompt's decisions.
//!
//! The prompt reads a line at a time.  It gathers lines in a buffer until
//! the braces in the buffer are balanced (outside strings and comments),
//! then hands the buffer over to be run.  `exit`, `quit` and `help` are
//! commands when typed on a fresh prompt.  `Repl::step` takes the prompt's
//! state and what the line editor returned, and gives the next state and
//! what to do; reading lines and printing stay with the caller.

use crate::interpreter::{Host, Interpreter};
use crate::semantics::{depth_limit, display, grows, knows, same_data, valid, with_replies, HostAnswer, Out};
use crate::text::chars_of;
use crate::value::Value;
use vstd::prelude::*;

verus! {

// ─── Brace counting ──────────────────────────────────────────

/// The brace depth reached by scanning `s` from index `i`, starting inside
/// a string or a comment or neither, at depth `depth`: `{` opens and `}`
/// closes, except inside a string (where a backslash escapes the next
/// character) or a `//` comment (which ends at the end of the line).
pub open spec fn brace_scan(s: Seq<char>, i: int, in_string: bool, in_comment: bool, depth: int) -> int
    decreases s.len() + 1 - i,
{
    if i < 0 || i >= s.len() {
        depth
    } else if in_comment {
        brace_scan(s, i + 1, in_string, s[i] != '\n', depth)
    } else if in_string {
        if s[i] == '\\' {
            brace_scan(s, i + 2, true, false, depth)
        } else {
            brace_scan(s, i + 1, s[i] != '"', false, depth)
        }
    } else if s[i] == '/' && i + 1 < s.len() && s[i + 1] == '/' {
        brace_scan(s, i + 2, false, true, depth)
    } else if s[i] == '"' {
        brace_scan(s, i + 1, true, false, depth)
    } else if s[i] == '{' {
        brace_scan(s, i + 1, false, false, depth + 1)
    } else if s[i] == '}' {
        brace_scan(s, i + 1, false, false, depth - 1)
    } else {
        brace_scan(s, i + 1, false, false, depth)
    }
}

/// The number of `{` in `s` minus the number of `}`, strings and
/// comments aside.
pub open spec fn unmatched_braces(s: Seq<char>) -> int {
    brace_scan(s, 0, false, false, 0)
}

/// The braces of `s` from index `i` on that stand outside strings and
/// `//` comments, in order (starting inside a string or a comment or
/// neither).
pub open spec fn code_braces(s: Seq<char>, i: int, in_string: bool, in_comment: bool) -> Seq<char>
    decreases s.len() + 1 - i,
{
    if i < 0 || i >= s.len() {
        Seq::empty()
    } else if in_comment {
        code_braces(s, i + 1, in_string, s[i] != '\n')
    } else if in_string {
        if s[i] == '\\' {
            code_braces(s, i + 2, true, false)
        } else {
            code_braces(s, i + 1, s[i] != '"', false)
        }
    } else if s[i] == '/' && i + 1 < s.len() && s[i + 1] == '/' {
        code_braces(s, i + 2, false, true)
    } else if s[i] == '"' {
        code_braces(s, i + 1, true, false)
    } else if s[i] == '{' || s[i] == '}' {
        seq![s[i]] + code_braces(s, i + 1, false, false)
    } else {
        code_braces(s, i + 1, false, false)
    }
}

/// How a brace changes the depth: `{` by one up, `}` by one down.
pub open spec fn brace_delta(c: char) -> int {
    if c == '{' {
        1
    } else if c == '}' {
        -1
    } else {
        0
    }
}

/// The number of `{` in `b` minus the number of `}`.
pub open spec fn balance(b: Seq<char>) -> int
    decreases b.len(),
{
    if b.len() == 0 {
        0
    } else {
        brace_delta(b[0]) + balance(b.drop_first())
    }
}

/// Starting with `open` braces open, the number still open after `b`: a
/// `{` opens one, a `}` closes the last one still open (or none).
pub open spec fn still_open(b: Seq<char>, open: nat) -> nat
    decreases b.len(),
{
    if b.len() == 0 {
        open
    } else if b[0] == '{' {
        still_open(b.drop_first(), open + 1)
    } else if b[0] == '}' && open > 0 {
        still_open(b.drop_first(), (open - 1) as nat)
    } else {
        still_open(b.drop_first(), open)
    }
}

/// Starting at depth `d`, the depth stays within `lo..=hi` all along `b`.
pub open spec fn depth_within(b: Seq<char>, d: int, lo: int, hi: int) -> bool
    decreases b.len(),
{
    &&& lo <= d <= hi
    &&& (b.len() > 0 ==> depth_within(b.drop_first(), d + brace_delta(b[0]), lo, hi))
}

/// The scan's depth is where it started plus the balance of the braces it
/// counts.
proof fn lemma_brace_scan_balance(s: Seq<char>, i: int, in_string: bool, in_comment: bool, depth: int)
    requires
        0 <= i,
    ensures
        brace_scan(s, i, in_string, in_comment, depth) == depth + balance(
            code_braces(s, i, in_string, in_comment),
        ),
    decreases s.len() + 1 - i,
{
    if i < s.len() {
        let c = s[i];
        if in_comment {
            lemma_brace_scan_balance(s, i + 1, in_string, c != '\n', depth);
        } else if in_string {
            if c == '\\' {
                lemma_brace_scan_balance(s, i + 2, true, false, depth);
            } else {
                lemma_brace_scan_balance(s, i + 1, c != '"', false, depth);
            }
        } else if c == '/' && i + 1 < s.len() && s[i + 1] == '/' {
            lemma_brace_scan_balance(s, i + 2, false, true, depth);
        } else if c == '"' {
            lemma_brace_scan_balance(s, i + 1, true, false, depth);
        } else if c == '{' || c == '}' {
            let rest = code_braces(s, i + 1, false, false);
            lemma_brace_scan_balance(s, i + 1, false, false, depth + brace_delta(c));
            assert((seq![c] + rest).drop_first() =~= rest);
        } else {
            lemma_brace_scan_balance(s, i + 1, false, false, depth);
        }
    }
}

/// With no `}` ever more than the `{` before it, the braces left open are
/// those open at the start plus the balance.
proof fn lemma_still_open_balance(b: Seq<char>, open: nat, hi: int)
    requires
        depth_within(b, open as int, 0, hi),
    ensures
        still_open(b, open) == open + balance(b),
    decreases b.len(),
{
    if b.len() > 0 {
        let n = open + brace_delta(b[0]);
        assert(depth_within(b.drop_first(), n, 0, hi));
        assert(0 <= n);
        lemma_still_open_balance(b.drop_first(), n as nat, hi);
        assert(still_open(b, open) == still_open(b.drop_first(), n as nat));
    }
}

/// Staying within bounds holds for wider bounds.
proof fn lemma_depth_within_widen(b: Seq<char>, d: int, lo: int, hi: int, lo2: int, hi2: int)
    requires
        depth_within(b, d, lo, hi),
        lo2 <= lo,
        hi <= hi2,
    ensures
        depth_within(b, d, lo2, hi2),
    decreases b.len(),
{
    if b.len() > 0 {
        lemma_depth_within_widen(b.drop_first(), d + brace_delta(b[0]), lo, hi, lo2, hi2);
    }
}

/// A depth with room for one step per brace stays within bounds.
proof fn lemma_depth_within_room(b: Seq<char>, d: int, lo: int, hi: int)
    requires
        lo + b.len() <= d <= hi - b.len(),
    ensures
        depth_within(b, d, lo, hi),
    decreases b.len(),
{
    if b.len() > 0 {
        lemma_depth_within_room(b.drop_first(), d + brace_delta(b[0]), lo, hi);
    }
}

/// There are no more counted braces than characters scanned.
proof fn lemma_code_braces_len(s: Seq<char>, i: int, in_string: bool, in_comment: bool)
    requires
        0 <= i,
    ensures
        code_braces(s, i, in_string, in_comment).len() <= if i < s.len() {
            s.len() - i
        } else {
            0
        },
    decreases s.len() + 1 - i,
{
    if i < s.len() {
        let c = s[i];
        if in_comment {
            lemma_code_braces_len(s, i + 1, in_string, c != '\n');
        } else if in_string {
            if c == '\\' {
                lemma_code_braces_len(s, i + 2, true, false);
            } else {
                lemma_code_braces_len(s, i + 1, c != '"', false);
            }
        } else if c == '/' && i + 1 < s.len() && s[i + 1] == '/' {
            lemma_code_braces_len(s, i + 2, false, true);
        } else if c == '"' {
            lemma_code_braces_len(s, i + 1, true, false);
        } else {
            lemma_code_braces_len(s, i + 1, false, false);
        }
    }
}

/// The count is the number of `{` minus the number of `}` among the
/// braces outside strings and comments.
pub proof fn lemma_unmatched_braces_balance(s: Seq<char>)
    ensures
        unmatched_braces(s) == balance(code_braces(s, 0, false, false)),
{
    lemma_brace_scan_balance(s, 0, false, false, 0);
}

/// When no `}` outside strings and comments comes before the `{` it
/// would close, the count is the number of `{` that no later `}` closes.
pub proof fn lemma_unmatched_braces_open(s: Seq<char>)
    requires
        depth_within(
            code_braces(s, 0, false, false),
            0,
            0,
            code_braces(s, 0, false, false).len() as int,
        ),
    ensures
        unmatched_braces(s) == still_open(code_braces(s, 0, false, false), 0),
{
    lemma_brace_scan_balance(s, 0, false, false, 0);
    lemma_still_open_balance(
        code_braces(s, 0, false, false),
        0,
        code_braces(s, 0, false, false).len() as int,
    );
}

/// The brace count of the characters `v`, whose depth along the way
/// stays within the range of `i64`.
fn brace_depth(v: &Vec<char>) -> (r: i64)
    requires
        depth_within(code_braces(v@, 0, false, false), 0, i64::MIN as int, i64::MAX as int),
    ensures
        r == unmatched_braces(v@),
{
    let ghost s = v@;
    let mut depth: i64 = 0;
    let mut in_string = false;
    let mut in_comment = false;
    let mut i: usize = 0;
    proof {
        lemma_brace_scan_balance(s, 0, false, false, 0);
    }
    while i < v.len()
        invariant
            s == v@,
            i <= s.len(),
            depth_within(code_braces(s, i as int, in_string, in_comment), depth as int, i64::MIN as int, i64::MAX as int),
            unmatched_braces(s) == brace_scan(s, i as int, in_string, in_comment, depth as int),
        decreases s.len() - i,
    {
        let c = v[i];
        if in_comment {
            if c == '\n' {
                in_comment = false;
            }
            i = i + 1;
        } else if in_string {
            if c == '\\' {
                if i + 1 < v.len() {
                    i = i + 2;
                } else {
                    proof {
                        assert(brace_scan(s, i + 2, true, false, depth as int) == depth);
                        assert(brace_scan(s, s.len() as int, true, false, depth as int) == depth);
                        assert(code_braces(s, i + 2, true, false) =~= Seq::<char>::empty());
                        assert(code_braces(s, s.len() as int, true, false) =~= Seq::<char>::empty());
                    }
                    i = v.len();
                }
            } else {
                if c == '"' {
                    in_string = false;
                }
                i = i + 1;
            }
        } else if c == '/' && i + 1 < v.len() && v[i + 1] == '/' {
            in_comment = true;
            i = i + 2;
        } else if c == '"' {
            in_string = true;
            i = i + 1;
        } else {
            let ghost rest = code_braces(s, i + 1, false, false);
            if c == '{' || c == '}' {
                proof {
                    assert((seq![c] + rest).drop_first() =~= rest);
                    assert(depth_within(
                        rest,
                        depth + brace_delta(c),
                        i64::MIN as int,
                        i64::MAX as int,
                    ));
                }
            }
            if c == '{' {
                depth = depth + 1;
            } else if c == '}' {
                depth = depth - 1;
            }
            i = i + 1;
        }
    }
    depth
}

/// The number of `{` in `s` minus the number of `}`, braces in strings
/// and `//` comments aside: more than zero means a block is still open.
/// The count must stay within the range of `i32` along the way.
pub fn count_unmatched_braces(s: &str) -> (r: i32)
    requires
        depth_within(code_braces(s@, 0, false, false), 0, i32::MIN as int, i32::MAX as int),
    ensures
        r == unmatched_braces(s@),
{
    let v = chars_of(s);
    proof {
        let b = code_braces(s@, 0, false, false);
        lemma_depth_within_widen(b, 0, i32::MIN as int, i32::MAX as int, i64::MIN as int, i64::MAX as int);
        lemma_brace_scan_balance(s@, 0, false, false, 0);
        lemma_depth_within_end(b, 0, i32::MIN as int, i32::MAX as int);
    }
    let d = brace_depth(&v);
    d as i32
}

/// Staying within bounds all along ends within them.
proof fn lemma_depth_within_end(b: Seq<char>, d: int, lo: int, hi: int)
    requires
        depth_within(b, d, lo, hi),
    ensures
        lo <= d + balance(b) <= hi,
    decreases b.len(),
{
    if b.len() > 0 {
        lemma_depth_within_end(b.drop_first(), d + brace_delta(b[0]), lo, hi);
    }
}

// ─── Trimming ────────────────────────────────────────────────

/// Whether `c` has the Unicode `White_Space` property.
pub open spec fn white_space(c: char) -> bool {
    let n = c as u32;
    ||| 0x09 <= n <= 0x0d
    ||| n == 0x20
    ||| n == 0x85
    ||| n == 0xa0
    ||| n == 0x1680
    ||| 0x2000 <= n <= 0x200a
    ||| n == 0x2028
    ||| n == 0x2029
    ||| n == 0x202f
    ||| n == 0x205f
    ||| n == 0x3000
}

/// Whether `c` has the Unicode `White_Space` property (what the standard
/// library's `char::is_whitespace` tells).
fn is_whitespace(c: char) -> (r: bool)
    ensures
        r == white_space(c),
{
    let n = c as u32;
    (0x09 <= n && n <= 0x0d) || n == 0x20 || n == 0x85 || n == 0xa0 || n == 0x1680 || (0x2000 <= n
        && n <= 0x200a) || n == 0x2028 || n == 0x2029 || n == 0x202f || n == 0x205f || n == 0x3000
}

/// The index of the first character of `s` at or after `i` that is not
/// white space (the length when there is none).
pub open spec fn trim_start(s: Seq<char>, i: int) -> int
    decreases s.len() - i,
{
    if 0 <= i < s.len() && white_space(s[i]) {
        trim_start(s, i + 1)
    } else {
        i
    }
}

/// The index after the last character of `s[lo..j]` that is not white
/// space (`lo` when there is none).
pub open spec fn trim_end(s: Seq<char>, lo: int, j: int) -> int
    decreases j - lo,
{
    if lo < j && white_space(s[j - 1]) {
        trim_end(s, lo, j - 1)
    } else {
        j
    }
}

/// `s` without its leading and trailing white space.
pub open spec fn trimmed(s: Seq<char>) -> Seq<char> {
    let a = trim_start(s, 0);
    s.subrange(a, trim_end(s, a, s.len() as int))
}

/// `s` without its leading and trailing white space.
fn trim(s: &str) -> (r: String)
    ensures
        r@ == trimmed(s@),
{
    let v = chars_of(s);
    let ghost q = v@;
    let mut a: usize = 0;
    while a < v.len() && is_whitespace(v[a])
        invariant
            q == v@,
            a <= q.len(),
            trim_start(q, 0) == trim_start(q, a as int),
        decreases q.len() - a,
    {
        a = a + 1;
    }
    let mut b: usize = v.len();
    while b > a && is_whitespace(v[b - 1])
        invariant
            q == v@,
            a <= b <= q.len(),
            trim_start(q, 0) == a,
            trim_end(q, a as int, q.len() as int) == trim_end(q, a as int, b as int),
        decreases b - a,
    {
        b = b - 1;
    }
    crate::text::string_from_chars(&v, a, b)
}

// ─── The prompt ──────────────────────────────────────────────

/// The prompt's state: the lines gathered so far (each followed by a line
/// break) and whether they still wait for more.
pub struct Repl {
    buffer: String,
    continuing: bool,
}

/// The view of a [`Repl`].
pub struct SRepl {
    pub buffer: Seq<char>,
    pub continuing: bool,
}

impl View for Repl {
    type V = SRepl;

    closed spec fn view(&self) -> SRepl {
        SRepl { buffer: self.buffer@, continuing: self.continuing }
    }
}

/// What the line editor returned.
pub enum Input {
    /// A line, without its line break.
    Line(String),
    /// The user pressed Ctrl-C.
    Interrupted,
    /// The input ended (Ctrl-D).
    Eof,
    /// Reading failed.
    Failed,
}

/// The view of an [`Input`].
pub enum SInput {
    Line(Seq<char>),
    Interrupted,
    Eof,
    Failed,
}

impl View for Input {
    type V = SInput;

    open spec fn view(&self) -> SInput {
        match self {
            Input::Line(l) => SInput::Line(l@),
            Input::Interrupted => SInput::Interrupted,
            Input::Eof => SInput::Eof,
            Input::Failed => SInput::Failed,
        }
    }
}

/// What the prompt does next.
#[derive(Debug)]
pub enum Action {
    /// Leave (`exit` or `quit`).
    Quit,
    /// Show the help text.
    Help,
    /// Read another line into the open block.
    More,
    /// Run the gathered source text.
    Run(String),
    /// Drop the open block and say `(cancelled)`.
    Cancelled,
    /// Say `Ctrl-C` and go on.
    Interrupted,
    /// Say `Bye!` and leave.
    Bye,
    /// Report the reading error and leave.
    Stop,
}

/// The view of an [`Action`].
pub enum SAction {
    Quit,
    Help,
    More,
    Run(Seq<char>),
    Cancelled,
    Interrupted,
    Bye,
    Stop,
}

impl View for Action {
    type V = SAction;

    open spec fn view(&self) -> SAction {
        match self {
            Action::Quit => SAction::Quit,
            Action::Help => SAction::Help,
            Action::More => SAction::More,
            Action::Run(s) => SAction::Run(s@),
            Action::Cancelled => SAction::Cancelled,
            Action::Interrupted => SAction::Interrupted,
            Action::Bye => SAction::Bye,
            Action::Stop => SAction::Stop,
        }
    }
}

/// The prompt's next state and action on `input`: on a fresh prompt
/// `exit` and `quit` leave and `help` shows the help; any other line is
/// added to the buffer, which is run once its braces are balanced; Ctrl-C
/// drops an open block.
pub open spec fn repl_step(st: SRepl, input: SInput) -> (SRepl, SAction) {
    match input {
        SInput::Line(line) => {
            let t = trimmed(line);
            if !st.continuing && (t == "exit"@ || t == "quit"@) {
                (st, SAction::Quit)
            } else if !st.continuing && t == "help"@ {
                (st, SAction::Help)
            } else {
                let buf = st.buffer + line + seq!['\n'];
                if unmatched_braces(buf) > 0 {
                    (SRepl { buffer: buf, continuing: true }, SAction::More)
                } else {
                    (SRepl { buffer: Seq::empty(), continuing: false }, SAction::Run(buf))
                }
            }
        },
        SInput::Interrupted => if st.continuing {
            (SRepl { buffer: Seq::empty(), continuing: false }, SAction::Cancelled)
        } else {
            (st, SAction::Interrupted)
        },
        SInput::Eof => (st, SAction::Bye),
        SInput::Failed => (st, SAction::Stop),
    }
}

impl Repl {
    /// A fresh prompt: nothing gathered.
    pub fn new() -> (r: Repl)
        ensures
            r@.buffer == Seq::<char>::empty(),
            !r@.continuing,
    {
        Repl { buffer: String::new(), continuing: false }
    }

    /// The lines gathered so far.
    pub fn pending(&self) -> (r: &str)
        ensures
            r@ == self@.buffer,
    {
        self.buffer.as_str()
    }

    /// The prompt to show: `.. ` inside an open block, `>> ` otherwise.
    pub fn prompt(&self) -> (r: &'static str)
        ensures
            r@ == (if self@.continuing {
                ".. "@
            } else {
                ">> "@
            }),
    {
        if self.continuing {
            ".. "
        } else {
            ">> "
        }
    }

    /// Takes what the line editor returned and gives what to do next.
    pub fn step(&mut self, input: Input) -> (r: Action)
        requires
            input is Line ==> old(self)@.buffer.len() + input->0@.len() + 1 < 0x7fff_ffff_ffff_ffff,
        ensures
            (final(self)@, r@) == repl_step(old(self)@, input@),
    {
        match input {
            Input::Line(line) => {
                let t = trim(line.as_str());
                if !self.continuing && (t == String::from_str("exit") || t == String::from_str("quit")) {
                    return Action::Quit;
                }
                if !self.continuing && t == String::from_str("help") {
                    return Action::Help;
                }
                self.buffer.append(line.as_str());
                crate::text::push_char(&mut self.buffer, '\n');
                proof {
                    assert(self.buffer@ =~= old(self)@.buffer + line@ + seq!['\n']);
                }
                let v = chars_of(self.buffer.as_str());
                proof {
                    lemma_code_braces_len(v@, 0, false, false);
                    lemma_depth_within_room(
                        code_braces(v@, 0, false, false),
                        0,
                        i64::MIN as int,
                        i64::MAX as int,
                    );
                }
                if brace_depth(&v) > 0 {
                    self.continuing = true;
                    Action::More
                } else {
                    self.continuing = false;
                    let mut source = String::new();
                    std::mem::swap(&mut source, &mut self.buffer);
                    Action::Run(source)
                }
            },
            Input::Interrupted => {
                if self.continuing {
                    self.buffer = String::new();
                    self.continuing = false;
                    Action::Cancelled
                } else {
                    Action::Interrupted
                }
            },
            Input::Eof => Action::Bye,
            Input::Failed => Action::Stop,
        }
    }
}

/// The line the prompt shows for the value of the last statement: `=> `
/// and the value as `print` shows it; nothing when there is no value or
/// it is `null`.
pub fn result_line<F: Host>(interp: &mut Interpreter<F>, v: &Option<Value>) -> (r: Option<String>)
    requires
        old(interp).wf(),
        v matches Some(x) ==> valid(old(interp)@, x@),
    ensures
        final(interp).wf(),
        grows(old(interp)@, final(interp)@),
        same_data(old(interp)@, final(interp)@),
        match v {
            Some(x) => if x@ is Null {
                r is None && final(interp)@ == old(interp)@
            } else {
                r matches Some(line) && forall|o: Seq<HostAnswer>| #![trigger with_replies(final(interp)@, o)]
                    knows(o, final(interp)@.asked) ==> display(
                        with_replies(old(interp)@, o),
                        x@,
                        depth_limit(),
                    ) == Out::Done(line@.subrange(3, line@.len() as int), with_replies(final(interp)@, o))
                        && line@.subrange(0, 3) == "=> "@
            },
            None => r is None && final(interp)@ == old(interp)@,
        },
{
    match v {
        Some(Value::Null) => None,
        Some(x) => {
            let mut line = String::from_str("=> ");
            let t = interp.display(x);
            line.append(t.as_str());
            proof {
                reveal_strlit("=> ");
                assert(line@.subrange(3, line@.len() as int) =~= t@);
                assert(line@.subrange(0, 3) =~= "=> "@);
            }
            Some(line)
        },
        None => None,
    }
}

} // verus!
