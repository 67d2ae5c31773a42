//! A check against trailing whitespace: for each physical line that
//! ends in a run of whitespace, one fault whose excerpt underlines
//! exactly that run.

use vstd::prelude::*;

use crate::fault::{clone_messages, fault_wf, Fault, FaultView, Level, Message, MessageView, Quote, QuoteView};
use crate::lint::{fault_views, Lint};
use crate::paths::extension_of_spec;
use crate::paths::extension_of;
use crate::text::{is_space, is_space_char, lines_of, split_lines, views_of};
use crate::tree::Metadata;
use crate::util::{contains_string, list_or, list_spec, sort_lex, sort_strings};

verus! {

/// Where the trailing whitespace run of a line starts: the least
/// index from which every character is whitespace; the line's length
/// when it does not end in whitespace.
pub open spec fn trailing_ws_start(line: Seq<char>) -> nat
    decreases line.len(),
{
    if line.len() == 0 {
        0
    } else if is_space_char(line.last()) {
        trailing_ws_start(line.drop_last())
    } else {
        line.len()
    }
}

/// Whether a line ends in whitespace.
pub open spec fn has_trailing_ws(line: Seq<char>) -> bool {
    trailing_ws_start(line) < line.len()
}

/// The trailing run is exactly what `trailing_ws_start` bounds:
/// everything from the start on is whitespace, and the character
/// before the start, where there is one, is not.
pub proof fn lemma_trailing_ws_run(line: Seq<char>)
    ensures
        trailing_ws_start(line) <= line.len(),
        forall|k: int| trailing_ws_start(line) <= k < line.len() ==> is_space_char(line[k]),
        trailing_ws_start(line) > 0 ==> !is_space_char(line[trailing_ws_start(line) - 1]),
    decreases line.len(),
{
    if line.len() > 0 && is_space_char(line.last()) {
        lemma_trailing_ws_run(line.drop_last());
        assert forall|k: int| trailing_ws_start(line) <= k < line.len() implies is_space_char(
            line[k],
        ) by {
            if k < line.len() - 1 {
                assert(line[k] == line.drop_last()[k]);
            }
        }
    }
}

/// If everything from `m` on is whitespace and the character before
/// `m`, where there is one, is not, then `m` is where the trailing
/// run starts.
pub proof fn lemma_trailing_ws_is(line: Seq<char>, m: int)
    requires
        0 <= m <= line.len(),
        forall|k: int| m <= k < line.len() ==> is_space_char(line[k]),
        m > 0 ==> !is_space_char(line[m - 1]),
    ensures
        trailing_ws_start(line) == m,
    decreases line.len(),
{
    if line.len() > 0 {
        if is_space_char(line.last()) {
            assert(m < line.len());
            lemma_trailing_ws_is(line.drop_last(), m);
        } else {
            assert(m == line.len());
        }
    }
}

/// The fixed message of every trailing whitespace fault.
pub open spec fn tw_message() -> Seq<char> {
    "lines should not end with trailing whitespace, unless the file format requires"@
}

/// The `'.ext'` form of each extension.
pub open spec fn quoted_exts(exts: Seq<Seq<char>>) -> Seq<Seq<char>> {
    exts.map_values(|e: Seq<char>| "'."@ + e + "'"@)
}

/// The hints of every trailing whitespace fault: one note naming the
/// ignored extensions as a natural-language list, quoted and sorted
/// ascending; nothing when no extension is ignored.
pub open spec fn tw_hints(exts: Seq<Seq<char>>) -> Seq<MessageView> {
    if exts.len() == 0 {
        Seq::empty()
    } else {
        seq![
            MessageView {
                lvl: Some(Level::Note),
                txt: "filenames ending with "@ + list_spec(
                    sort_lex(quoted_exts(exts)),
                    ", "@,
                    " or "@,
                ) + " are ignored"@,
            },
        ]
    }
}

/// The fault for one offending line: a warning whose excerpt
/// underlines the trailing run, spanning the columns from its start
/// to the line's last character.
pub open spec fn tw_fault(path: Seq<char>, row: nat, line: Seq<char>, hints: Seq<MessageView>) -> FaultView {
    FaultView {
        msg: MessageView { lvl: Some(Level::Warning), txt: tw_message() },
        quote: QuoteView::Excerpt {
            path: path,
            row: row,
            col_from: trailing_ws_start(line),
            col_to: (line.len() - 1) as nat,
            txt: line,
            msg: MessageView { lvl: None, txt: "whitespace found here"@ },
        },
        hints: hints,
    }
}

/// The faults for the lines from index `i` on: one per line that ends
/// in whitespace, in line order, rows counted from 1.
pub open spec fn tw_faults(
    path: Seq<char>,
    lines: Seq<Seq<char>>,
    hints: Seq<MessageView>,
    i: int,
) -> Seq<FaultView>
    decreases lines.len() - i,
{
    if i < 0 || i >= lines.len() {
        Seq::empty()
    } else {
        let here = if has_trailing_ws(lines[i]) {
            seq![tw_fault(path, (i + 1) as nat, lines[i], hints)]
        } else {
            Seq::<FaultView>::empty()
        };
        here + tw_faults(path, lines, hints, i + 1)
    }
}

/// How many of the lines from index `i` on end in whitespace.
pub open spec fn tw_count(lines: Seq<Seq<char>>, i: int) -> int
    decreases lines.len() - i,
{
    if i < 0 || i >= lines.len() {
        0
    } else {
        (if has_trailing_ws(lines[i]) {
            1int
        } else {
            0int
        }) + tw_count(lines, i + 1)
    }
}

/// A fault the check may report: an excerpt of some offending line,
/// whose column span covers exactly that line's trailing whitespace
/// run.
pub open spec fn tw_fault_shape(path: Seq<char>, lines: Seq<Seq<char>>, f: FaultView) -> bool {
    match f.quote {
        QuoteView::Excerpt { path: p, row, col_from, col_to, txt, .. } => {
            &&& p == path
            &&& 1 <= row <= lines.len()
            &&& txt == lines[row - 1]
            &&& has_trailing_ws(txt)
            &&& col_from == trailing_ws_start(txt)
            &&& col_to + 1 == txt.len()
        },
        _ => false,
    }
}

/// Given N lines ending in whitespace among the input's lines, the
/// check reports exactly N faults — one per offending line — and each
/// fault's span covers exactly that line's trailing run.
pub proof fn lemma_tw_reports_offending_lines(
    path: Seq<char>,
    lines: Seq<Seq<char>>,
    hints: Seq<MessageView>,
    i: int,
)
    ensures
        tw_faults(path, lines, hints, i).len() == tw_count(lines, i),
        forall|j: int|
            0 <= j < tw_faults(path, lines, hints, i).len() ==> tw_fault_shape(
                path,
                lines,
                #[trigger] tw_faults(path, lines, hints, i)[j],
            ),
    decreases lines.len() - i,
{
    if 0 <= i < lines.len() {
        lemma_tw_reports_offending_lines(path, lines, hints, i + 1);
        if has_trailing_ws(lines[i]) {
            assert(tw_fault_shape(path, lines, tw_fault(path, (i + 1) as nat, lines[i], hints)));
        }
    }
}

/// The trailing whitespace check. Entries whose extension stands in
/// the blacklist are skipped before their content is read, and the
/// skip is named in a hint on every fault.
pub struct TrailingWhitespace {
    pub extension_blacklist: Vec<String>,
}

impl TrailingWhitespace {
    /// Where the trailing whitespace run of `line` starts, as an
    /// index; the line's length when there is no such run.
    fn trailing_start(line: &str) -> (m: usize)
        ensures
            m == trailing_ws_start(line@),
    {
        let n = line.unicode_len();
        let mut j: usize = n;
        while j > 0 && is_space(line.get_char(j - 1))
            invariant
                0 <= j <= n,
                n == line@.len(),
                forall|k: int| j <= k < n ==> is_space_char(line@[k]),
            decreases j,
        {
            j = j - 1;
        }
        proof {
            lemma_trailing_ws_is(line@, j as int);
        }
        j
    }

    /// The hints shared by this check's faults, matching `tw_hints`.
    fn make_hints(&self) -> (hints: Vec<Message>)
        ensures
            hints@.map_values(|m: Message| m@) == tw_hints(views_of(self.extension_blacklist@)),
    {
        let mut hints: Vec<Message> = Vec::new();
        if self.extension_blacklist.len() > 0 {
            proof {
                reveal_strlit("'.");
                reveal_strlit("'");
                reveal_strlit("filenames ending with ");
                reveal_strlit(" are ignored");
            }
            let mut quoted: Vec<String> = Vec::new();
            let n = self.extension_blacklist.len();
            let mut i: usize = 0;
            while i < n
                invariant
                    0 <= i <= n,
                    n == self.extension_blacklist@.len(),
                    quoted@.len() == i,
                    forall|k: int|
                        0 <= k < i ==> #[trigger] quoted@[k]@ == "'."@
                            + self.extension_blacklist@[k]@ + "'"@,
                decreases n - i,
            {
                proof {
                    reveal_strlit("'.");
                    reveal_strlit("'");
                }
                let q = String::from_str("'.").concat(
                    self.extension_blacklist[i].as_str(),
                ).concat("'");
                quoted.push(q);
                i = i + 1;
            }
            proof {
                assert(views_of(quoted@) =~= quoted_exts(views_of(self.extension_blacklist@)));
            }
            let sorted = sort_strings(&quoted);
            let lst = list_or(&sorted);
            let txt = String::from_str("filenames ending with ").concat(lst.as_str()).concat(
                " are ignored",
            );
            hints.push(Message::note(txt.as_str()));
            proof {
                assert(hints@.map_values(|m: Message| m@) =~= tw_hints(
                    views_of(self.extension_blacklist@),
                ));
            }
        } else {
            proof {
                assert(hints@.map_values(|m: Message| m@) =~= tw_hints(
                    views_of(self.extension_blacklist@),
                ));
            }
        }
        hints
    }
}

impl Lint for TrailingWhitespace {
    /// Directories are skipped, and so is any file whose extension
    /// stands in the blacklist.
    open spec fn spec_ignore(&self, path: Seq<char>, meta: Metadata) -> bool {
        meta.is_dir || match extension_of_spec(path) {
            Some(e) => views_of(self.extension_blacklist@).contains(e),
            None => false,
        }
    }

    open spec fn spec_review(&self, path: Seq<char>, content: Seq<char>) -> Seq<FaultView> {
        tw_faults(path, lines_of(content), tw_hints(views_of(self.extension_blacklist@)), 0)
    }

    fn ignore(&self, path: &str, meta: &Metadata) -> (r: bool)
        ensures
            r == self.spec_ignore(path@, *meta),
    {
        if meta.is_dir {
            return true;
        }
        match extension_of(path) {
            Some(e) => contains_string(&self.extension_blacklist, e.as_str()),
            None => false,
        }
    }

    fn review(&self, path: &str, content: &str) -> (faults: Vec<Fault>)
        ensures
            fault_views(faults@) == self.spec_review(path@, content@),
            forall|k: int| 0 <= k < faults@.len() ==> fault_wf(#[trigger] faults@[k]@),
    {
        let ghost hv = tw_hints(views_of(self.extension_blacklist@));
        let hints = self.make_hints();
        let lines = split_lines(content);
        let ghost lv = lines_of(content@);
        let mut faults: Vec<Fault> = Vec::new();
        let n = lines.len();
        let mut i: usize = 0;
        proof {
            assert(fault_views(faults@) =~= Seq::<FaultView>::empty());
        }
        while i < n
            invariant
                0 <= i <= n,
                n == lines@.len(),
                lv == lines_of(content@),
                views_of(lines@) == lv,
                hints@.map_values(|m: Message| m@) == hv,
                tw_faults(path@, lv, hv, 0) =~= fault_views(faults@) + tw_faults(
                    path@,
                    lv,
                    hv,
                    i as int,
                ),
                forall|k: int| 0 <= k < faults@.len() ==> fault_wf(#[trigger] faults@[k]@),
            decreases n - i,
        {
            let ghost faults0 = faults@;
            let line = &lines[i];
            let start = Self::trailing_start(line.as_str());
            let len = line.as_str().unicode_len();
            proof {
                assert(line@ == lv[i as int]);
                lemma_trailing_ws_run(line@);
            }
            if start < len {
                let fault = Fault {
                    msg: Message::warning(
                        "lines should not end with trailing whitespace, unless the file format requires",
                    ),
                    quote: Quote::Excerpt {
                        path: String::from_str(path),
                        row: i + 1,
                        col_from: start,
                        col_to: len - 1,
                        txt: line.clone(),
                        msg: Message::bare("whitespace found here"),
                    },
                    hints: clone_messages(&hints),
                };
                proof {
                    assert(fault@ == tw_fault(path@, (i + 1) as nat, lv[i as int], hv));
                }
                faults.push(fault);
                proof {
                    assert(fault_views(faults@) =~= fault_views(faults0).push(
                        tw_fault(path@, (i + 1) as nat, lv[i as int], hv),
                    ));
                }
            }
            i = i + 1;
            proof {
                assert(tw_faults(path@, lv, hv, 0) =~= fault_views(faults@) + tw_faults(
                    path@,
                    lv,
                    hv,
                    i as int,
                ));
            }
        }
        proof {
            assert(fault_views(faults@) =~= tw_faults(path@, lv, hv, 0));
        }
        faults
    }
}

} // verus!
