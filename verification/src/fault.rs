//! The diagnostic data model and its text renderer: a `Fault` is one
//! complete diagnostic (message, optional source quote, hints) and
//! renders deterministically to one block of rustc-style text.

use vstd::prelude::*;

use crate::text::{carets, dec_digits, dec_width, fmt_usize, repeat_char, spaces};

verus! {

/// The severity of a message.
#[derive(Clone, Copy, Debug, PartialEq, Eq, Structural, Hash, PartialOrd, Ord)]
pub enum Level {
    Error,
    Warning,
    Note,
    Help,
}

impl Level {
    /// The keyword this level renders as.
    pub open spec fn spec_str(self) -> Seq<char> {
        match self {
            Level::Error => "error"@,
            Level::Warning => "warning"@,
            Level::Note => "note"@,
            Level::Help => "help"@,
        }
    }

    pub fn to_str(&self) -> (s: &'static str)
        ensures
            s@ == self.spec_str(),
    {
        match *self {
            Level::Error => "error",
            Level::Warning => "warning",
            Level::Note => "note",
            Level::Help => "help",
        }
    }
}

/// The mathematical value of a `Message`.
pub struct MessageView {
    pub lvl: Option<Level>,
    pub txt: Seq<char>,
}

/// An optional severity level plus text; "bare" messages carry no
/// level.
#[derive(Debug)]
pub struct Message {
    pub lvl: Option<Level>,
    pub txt: String,
}

impl View for Message {
    type V = MessageView;

    open spec fn view(&self) -> MessageView {
        MessageView { lvl: self.lvl, txt: self.txt@ }
    }
}

/// How a message renders: `"{level}: {text}"`, or bare `"{text}"`.
pub open spec fn render_message(m: MessageView) -> Seq<char> {
    match m.lvl {
        Some(l) => l.spec_str() + ": "@ + m.txt,
        None => m.txt,
    }
}

impl Message {
    /// A message with no severity level.
    pub fn bare(txt: &str) -> (m: Message)
        ensures
            m@ == (MessageView { lvl: None, txt: txt@ }),
    {
        Message { lvl: None, txt: String::from_str(txt) }
    }

    /// A message at the given severity level.
    pub fn with_lvl(lvl: Level, txt: &str) -> (m: Message)
        ensures
            m@ == (MessageView { lvl: Some(lvl), txt: txt@ }),
    {
        Message { lvl: Some(lvl), txt: String::from_str(txt) }
    }

    pub fn error(txt: &str) -> (m: Message)
        ensures
            m@ == (MessageView { lvl: Some(Level::Error), txt: txt@ }),
    {
        Message::with_lvl(Level::Error, txt)
    }

    pub fn warning(txt: &str) -> (m: Message)
        ensures
            m@ == (MessageView { lvl: Some(Level::Warning), txt: txt@ }),
    {
        Message::with_lvl(Level::Warning, txt)
    }

    pub fn note(txt: &str) -> (m: Message)
        ensures
            m@ == (MessageView { lvl: Some(Level::Note), txt: txt@ }),
    {
        Message::with_lvl(Level::Note, txt)
    }

    pub fn help(txt: &str) -> (m: Message)
        ensures
            m@ == (MessageView { lvl: Some(Level::Help), txt: txt@ }),
    {
        Message::with_lvl(Level::Help, txt)
    }

    /// Whether the message carries no severity level.
    pub fn is_bare(&self) -> (r: bool)
        ensures
            r == (self@.lvl is None),
    {
        self.lvl.is_none()
    }

    /// Writes the message as one line without its line break, matching
    /// `render_message`.
    pub fn render(&self) -> (s: String)
        ensures
            s@ == render_message(self@),
    {
        proof {
            reveal_strlit(": ");
        }
        match self.lvl {
            Some(lvl) => {
                let mut s = String::from_str(lvl.to_str());
                s.append(": ");
                s.append(self.txt.as_str());
                s
            },
            None => self.txt.clone(),
        }
    }
}

impl Clone for Message {
    fn clone(&self) -> (res: Self)
        ensures
            res == *self,
    {
        Message { lvl: self.lvl, txt: self.txt.clone() }
    }
}

/// The mathematical value of a `Quote`.
pub enum QuoteView {
    Empty,
    File { path: Seq<char> },
    Excerpt { path: Seq<char>, row: nat, col_from: nat, col_to: nat, txt: Seq<char>, msg: MessageView },
}

/// The source-context portion of a fault: none, a bare file reference,
/// or one physical line with an inclusive column span underlined.
/// Multi-line excerpts are unsupported by design.
#[derive(Debug)]
pub enum Quote {
    Empty,
    File { path: String },
    Excerpt { path: String, row: usize, col_from: usize, col_to: usize, txt: String, msg: Message },
}

impl View for Quote {
    type V = QuoteView;

    open spec fn view(&self) -> QuoteView {
        match self {
            Quote::Empty => QuoteView::Empty,
            Quote::File { path } => QuoteView::File { path: path@ },
            Quote::Excerpt { path, row, col_from, col_to, txt, msg } => QuoteView::Excerpt {
                path: path@,
                row: *row as nat,
                col_from: *col_from as nat,
                col_to: *col_to as nat,
                txt: txt@,
                msg: msg@,
            },
        }
    }
}

/// An excerpt's column span is inclusive on both ends, so its bounds
/// must be in order for the underline to have a width.
pub open spec fn quote_wf(q: QuoteView) -> bool {
    match q {
        QuoteView::Excerpt { col_from, col_to, .. } => col_from <= col_to && col_to - col_from
            < usize::MAX,
        _ => true,
    }
}

/// The width of the canvas prefix: the decimal digit count of the
/// referenced row for an excerpt, and 1 otherwise.
pub open spec fn prefix_width(q: QuoteView) -> nat {
    match q {
        QuoteView::Excerpt { row, .. } => dec_width(row),
        _ => 1,
    }
}

/// The canvas prefix: the left-gutter padding that aligns all quote
/// lines.
pub open spec fn spec_canvas_prefix(q: QuoteView) -> Seq<char> {
    repeat_char(' ', prefix_width(q))
}

/// How a quote renders: nothing, a file reference line, or the
/// five-line excerpt block (location, gutter, source, underline,
/// gutter).
pub open spec fn render_quote(q: QuoteView) -> Seq<char> {
    match q {
        QuoteView::Empty => Seq::empty(),
        QuoteView::File { path } => spec_canvas_prefix(q) + "--> "@ + path + seq!['\n'],
        QuoteView::Excerpt { path, row, col_from, col_to, txt, msg } => {
            let prefix = spec_canvas_prefix(q);
            prefix + "--> "@ + path + seq![':'] + dec_digits(row) + seq![':'] + dec_digits(
                col_from,
            ) + seq!['\n'] + prefix + " |"@ + seq!['\n'] + dec_digits(row) + " | "@ + txt
                + seq!['\n'] + prefix + " | "@ + repeat_char(' ', col_from) + repeat_char(
                '^',
                (col_to + 1 - col_from) as nat,
            ) + seq![' '] + render_message(msg) + seq!['\n'] + prefix + " |"@ + seq!['\n']
        },
    }
}

impl Quote {
    /// The canvas prefix of this quote, matching `spec_canvas_prefix`.
    pub fn canvas_prefix(&self) -> (s: String)
        ensures
            s@ == spec_canvas_prefix(self@),
    {
        let len: usize = match self {
            Quote::Excerpt { row, .. } => {
                let digits = fmt_usize(*row);
                digits.as_str().unicode_len()
            },
            _ => 1,
        };
        spaces(len)
    }

    /// Writes the quote block, matching `render_quote`.
    #[verifier::rlimit(60)]
    pub fn render(&self) -> (s: String)
        ensures
            quote_wf(self@) ==> s@ == render_quote(self@),
    {
        proof {
            reveal_strlit("--> ");
            reveal_strlit(":");
            reveal_strlit("\n");
            reveal_strlit(" |");
            reveal_strlit(" | ");
        }
        match self {
            Quote::Empty => String::new(),
            Quote::File { path } => {
                let mut s = self.canvas_prefix();
                s.append("--> ");
                s.append(path.as_str());
                s.append("\n");
                proof {
                    assert(s@ =~= render_quote(self@));
                }
                s
            },
            Quote::Excerpt { path, row, col_from, col_to, txt, msg } => {
                let prefix = self.canvas_prefix();
                let digits = fmt_usize(*row);

                let mut s = prefix.clone();
                s.append("--> ");
                s.append(path.as_str());
                s.append(":");
                s.append(digits.as_str());
                s.append(":");
                let cols = fmt_usize(*col_from);
                s.append(cols.as_str());
                s.append("\n");

                s.append(prefix.as_str());
                s.append(" |");
                s.append("\n");

                s.append(digits.as_str());
                s.append(" | ");
                s.append(txt.as_str());
                s.append("\n");

                s.append(prefix.as_str());
                s.append(" | ");
                let offset = spaces(*col_from);
                s.append(offset.as_str());
                // The guard mirrors `quote_wf`: an inverted span gets no
                // underline instead of a panicking width.
                if *col_from <= *col_to && *col_to - *col_from < usize::MAX {
                    let underline = carets(*col_to - *col_from + 1);
                    s.append(underline.as_str());
                }
                s.append(" ");
                proof {
                    reveal_strlit(" ");
                }
                let rendered_msg = msg.render();
                s.append(rendered_msg.as_str());
                s.append("\n");

                s.append(prefix.as_str());
                s.append(" |");
                s.append("\n");
                proof {
                    if quote_wf(self@) {
                        assert(s@ =~= render_quote(self@));
                    }
                }
                s
            },
        }
    }
}

impl Clone for Quote {
    fn clone(&self) -> (res: Self)
        ensures
            res == *self,
    {
        match self {
            Quote::Empty => Quote::Empty,
            Quote::File { path } => Quote::File { path: path.clone() },
            Quote::Excerpt { path, row, col_from, col_to, txt, msg } => Quote::Excerpt {
                path: path.clone(),
                row: *row,
                col_from: *col_from,
                col_to: *col_to,
                txt: txt.clone(),
                msg: msg.clone(),
            },
        }
    }
}

/// A copy of a list of messages, element for element.
pub fn clone_messages(v: &Vec<Message>) -> (r: Vec<Message>)
    ensures
        r@ == v@,
{
    let mut r: Vec<Message> = Vec::new();
    let n = v.len();
    let mut i: usize = 0;
    while i < n
        invariant
            0 <= i <= n,
            n == v@.len(),
            r@.len() == i,
            forall|k: int| 0 <= k < i ==> r@[k] == v@[k],
        decreases n - i,
    {
        r.push(v[i].clone());
        i = i + 1;
    }
    proof {
        assert(r@ =~= v@);
    }
    r
}

/// The mathematical value of a `Fault`.
pub struct FaultView {
    pub msg: MessageView,
    pub quote: QuoteView,
    pub hints: Seq<MessageView>,
}

/// One complete, self-rendering diagnostic unit: a message, an optional
/// source quote, and any number of hints. A fault owns its paths and
/// text; it keeps no reference to the file it describes.
#[derive(Debug)]
pub struct Fault {
    pub msg: Message,
    pub quote: Quote,
    pub hints: Vec<Message>,
}

impl View for Fault {
    type V = FaultView;

    open spec fn view(&self) -> FaultView {
        FaultView {
            msg: self.msg@,
            quote: self.quote@,
            hints: self.hints@.map_values(|m: Message| m@),
        }
    }
}

/// A fault renders as a whole when its quote does.
pub open spec fn fault_wf(f: FaultView) -> bool {
    quote_wf(f.quote)
}

/// How the hint lines from index `i` on render: one line
/// `"{prefix} = {msg}"` per hint.
pub open spec fn render_hints(q: QuoteView, hints: Seq<MessageView>, i: int) -> Seq<char>
    decreases hints.len() - i,
{
    if i < 0 || i >= hints.len() {
        Seq::empty()
    } else {
        spec_canvas_prefix(q) + " = "@ + render_message(hints[i]) + seq!['\n'] + render_hints(
            q,
            hints,
            i + 1,
        )
    }
}

/// How a fault renders: the message line, then the quote block, then
/// one line per hint.
pub open spec fn render_fault(f: FaultView) -> Seq<char> {
    render_message(f.msg) + seq!['\n'] + render_quote(f.quote) + render_hints(f.quote, f.hints, 0)
}

impl Clone for Fault {
    fn clone(&self) -> (res: Self)
        ensures
            res@ == self@,
            res.msg == self.msg,
            res.quote == self.quote,
            res.hints@ == self.hints@,
    {
        let res = Fault {
            msg: self.msg.clone(),
            quote: self.quote.clone(),
            hints: clone_messages(&self.hints),
        };
        proof {
            assert(res@.hints =~= self@.hints);
        }
        res
    }
}

impl Fault {
    /// A fault that is only a message: no quote, no hints.
    pub fn simple(msg: Message) -> (f: Fault)
        ensures
            f@.msg == msg@,
            f@.quote is Empty,
            f@.hints =~= Seq::<MessageView>::empty(),
    {
        let f = Fault { msg, quote: Quote::Empty, hints: Vec::new() };
        proof {
            assert(f@.hints =~= Seq::<MessageView>::empty());
        }
        f
    }

    /// Writes the whole diagnostic block, matching `render_fault`. The
    /// renderer performs no input or output and cannot fail.
    pub fn render(&self) -> (s: String)
        requires
            fault_wf(self@),
        ensures
            s@ == render_fault(self@),
    {
        proof {
            reveal_strlit("\n");
            reveal_strlit(" = ");
        }
        let mut s = self.msg.render();
        s.append("\n");
        let quote = self.quote.render();
        s.append(quote.as_str());

        let prefix = self.quote.canvas_prefix();
        let ghost q = self.quote@;
        let ghost hints = self@.hints;
        let mut i: usize = 0;
        let n = self.hints.len();
        while i < n
            invariant
                0 <= i <= n,
                n == self.hints.len(),
                hints == self@.hints,
                q == self.quote@,
                prefix@ == spec_canvas_prefix(q),
                render_fault(self@) =~= s@ + render_hints(q, hints, i as int),
            decreases n - i,
        {
            proof {
                reveal_strlit("\n");
                reveal_strlit(" = ");
            }
            s.append(prefix.as_str());
            s.append(" = ");
            let hint = self.hints[i].render();
            s.append(hint.as_str());
            s.append("\n");
            i = i + 1;
            proof {
                assert(render_fault(self@) =~= s@ + render_hints(q, hints, i as int));
            }
        }
        proof {
            assert(s@ =~= render_fault(self@));
        }
        s
    }
}

} // verus!
