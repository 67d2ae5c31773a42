//! A check against incomplete-work keywords: for each non-overlapping
//! occurrence of a configured keyword in a line, one fault whose
//! excerpt underlines exactly the matched keyword.

use vstd::prelude::*;

use crate::fault::{fault_wf, Fault, FaultView, Level, Message, MessageView, Quote, QuoteView};
use crate::lint::{fault_views, Lint};
use crate::text::{lines_of, split_lines, views_of};
use crate::tree::Metadata;

verus! {

/// The starting columns of the non-overlapping occurrences of `kw` in
/// `line`, searched left to right from `i`; after a match the search
/// resumes past it. An empty keyword matches nowhere.
pub open spec fn matches_from(line: Seq<char>, kw: Seq<char>, i: int) -> Seq<int>
    decreases line.len() - i,
{
    if i < 0 || kw.len() == 0 || i + kw.len() > line.len() {
        Seq::empty()
    } else if line.subrange(i, i + kw.len()) == kw {
        seq![i] + matches_from(line, kw, i + kw.len())
    } else {
        matches_from(line, kw, i + 1)
    }
}

/// Every reported occurrence lies at or after `i` and fits inside the
/// line.
pub proof fn lemma_matches_bounds(line: Seq<char>, kw: Seq<char>, i: int)
    ensures
        forall|j: int|
            0 <= j < matches_from(line, kw, i).len() ==> i <= #[trigger] matches_from(
                line,
                kw,
                i,
            )[j] && matches_from(line, kw, i)[j] + kw.len() <= line.len(),
    decreases line.len() - i,
{
    if !(i < 0 || kw.len() == 0 || i + kw.len() > line.len()) {
        if line.subrange(i, i + kw.len()) == kw {
            lemma_matches_bounds(line, kw, i + kw.len());
            assert forall|j: int| 0 <= j < matches_from(line, kw, i).len() implies i
                <= #[trigger] matches_from(line, kw, i)[j] && matches_from(line, kw, i)[j]
                + kw.len() <= line.len() by {
                if j > 0 {
                    assert(matches_from(line, kw, i)[j] == matches_from(line, kw, i + kw.len())[j
                        - 1]);
                }
            }
        } else {
            lemma_matches_bounds(line, kw, i + 1);
            assert forall|j: int| 0 <= j < matches_from(line, kw, i).len() implies i
                <= #[trigger] matches_from(line, kw, i)[j] && matches_from(line, kw, i)[j]
                + kw.len() <= line.len() by {
                assert(matches_from(line, kw, i)[j] == matches_from(line, kw, i + 1)[j]);
            }
        }
    }
}

/// The fault for one occurrence: a warning whose excerpt underlines
/// the matched keyword, from its first to its last character.
pub open spec fn iw_fault(path: Seq<char>, row: nat, line: Seq<char>, kw: Seq<char>, m: int) -> FaultView {
    FaultView {
        msg: MessageView { lvl: Some(Level::Warning), txt: "there should be no incomplete work"@ },
        quote: QuoteView::Excerpt {
            path: path,
            row: row,
            col_from: m as nat,
            col_to: (m + kw.len() - 1) as nat,
            txt: line,
            msg: MessageView { lvl: None, txt: "keyword suggests incomplete work"@ },
        },
        hints: seq![
            MessageView { lvl: Some(Level::Help), txt: "remove keyword after completing work"@ },
        ],
    }
}

/// The faults for one keyword in one line, in match order.
pub open spec fn iw_kw_faults(path: Seq<char>, row: nat, line: Seq<char>, kw: Seq<char>) -> Seq<
    FaultView,
> {
    matches_from(line, kw, 0).map_values(|m: int| iw_fault(path, row, line, kw, m))
}

/// The faults for one line over the keywords from index `k` on, in
/// keyword order.
pub open spec fn iw_line_faults(
    path: Seq<char>,
    row: nat,
    line: Seq<char>,
    kws: Seq<Seq<char>>,
    k: int,
) -> Seq<FaultView>
    decreases kws.len() - k,
{
    if k < 0 || k >= kws.len() {
        Seq::empty()
    } else {
        iw_kw_faults(path, row, line, kws[k]) + iw_line_faults(path, row, line, kws, k + 1)
    }
}

/// The faults for the lines from index `i` on, in line order, rows
/// counted from 1.
pub open spec fn iw_faults(
    path: Seq<char>,
    lines: Seq<Seq<char>>,
    kws: Seq<Seq<char>>,
    i: int,
) -> Seq<FaultView>
    decreases lines.len() - i,
{
    if i < 0 || i >= lines.len() {
        Seq::empty()
    } else {
        iw_line_faults(path, (i + 1) as nat, lines[i], kws, 0) + iw_faults(path, lines, kws, i + 1)
    }
}

/// The incomplete-work check: it reports every non-overlapping
/// occurrence of any configured keyword.
pub struct IncompleteWork {
    pub keywords: Vec<String>,
}

impl IncompleteWork {
    /// A check over the given keywords.
    pub fn init(keywords: Vec<String>) -> (l: IncompleteWork)
        ensures
            l.keywords == keywords,
    {
        IncompleteWork { keywords }
    }
}

/// Whether `kw` occurs in `line` at column `i`.
fn occurs_at(line: &str, kw: &str, i: usize) -> (r: bool)
    requires
        i + kw@.len() <= line@.len(),
        line@.len() <= usize::MAX,
    ensures
        r == (line@.subrange(i as int, i + kw@.len()) == kw@),
{
    let klen = kw.unicode_len();
    let mut k: usize = 0;
    while k < klen
        invariant
            0 <= k <= klen,
            klen == kw@.len(),
            i + klen <= line@.len(),
            line@.len() <= usize::MAX,
            forall|p: int| 0 <= p < k ==> line@[i + p] == kw@[p],
        decreases klen - k,
    {
        if !(line.get_char(i + k) == kw.get_char(k)) {
            proof {
                if line@.subrange(i as int, i + kw@.len()) == kw@ {
                    assert(line@.subrange(i as int, i + kw@.len())[k as int] == line@[i + k]);
                    assert(line@.subrange(i as int, i + kw@.len())[k as int] == kw@[k as int]);
                }
            }
            return false;
        }
        k = k + 1;
    }
    proof {
        assert(line@.subrange(i as int, i + kw@.len()) =~= kw@);
    }
    true
}

/// The starting columns of the non-overlapping occurrences of `kw` in
/// `line`, matching `matches_from`.
fn find_matches(line: &str, kw: &str) -> (ms: Vec<usize>)
    ensures
        ms@.map_values(|u: usize| u as int) == matches_from(line@, kw@, 0),
{
    let n = line.unicode_len();
    let klen = kw.unicode_len();
    let mut ms: Vec<usize> = Vec::new();
    if klen == 0 || klen > n {
        proof {
            assert(ms@.map_values(|u: usize| u as int) =~= matches_from(line@, kw@, 0));
        }
        return ms;
    }
    let mut i: usize = 0;
    proof {
        assert(ms@.map_values(|u: usize| u as int) =~= Seq::<int>::empty());
    }
    while i <= n - klen
        invariant
            0 <= i,
            i <= n + 1,
            1 <= klen <= n,
            n == line@.len(),
            klen == kw@.len(),
            matches_from(line@, kw@, 0) =~= ms@.map_values(|u: usize| u as int) + matches_from(
                line@,
                kw@,
                i as int,
            ),
        decreases n - i,
    {
        let ghost ms0 = ms@;
        if occurs_at(line, kw, i) {
            ms.push(i);
            proof {
                assert(ms@.map_values(|u: usize| u as int) =~= ms0.map_values(
                    |u: usize| u as int,
                ).push(i as int));
                assert(matches_from(line@, kw@, i as int) =~= seq![i as int] + matches_from(
                    line@,
                    kw@,
                    i + klen,
                ));
            }
            i = i + klen;
        } else {
            proof {
                assert(matches_from(line@, kw@, i as int) =~= matches_from(line@, kw@, i + 1));
            }
            i = i + 1;
        }
        proof {
            assert(matches_from(line@, kw@, 0) =~= ms@.map_values(|u: usize| u as int)
                + matches_from(line@, kw@, i as int));
        }
    }
    proof {
        assert(matches_from(line@, kw@, i as int) =~= Seq::<int>::empty());
        assert(ms@.map_values(|u: usize| u as int) =~= matches_from(line@, kw@, 0));
    }
    ms
}

impl Lint for IncompleteWork {
    /// Directories are skipped; every file is reviewed.
    open spec fn spec_ignore(&self, path: Seq<char>, meta: Metadata) -> bool {
        meta.is_dir
    }

    open spec fn spec_review(&self, path: Seq<char>, content: Seq<char>) -> Seq<FaultView> {
        iw_faults(path, lines_of(content), views_of(self.keywords@), 0)
    }

    fn ignore(&self, path: &str, meta: &Metadata) -> (r: bool)
        ensures
            r == self.spec_ignore(path@, *meta),
    {
        meta.is_dir
    }

    fn review(&self, path: &str, content: &str) -> (faults: Vec<Fault>)
        ensures
            fault_views(faults@) == self.spec_review(path@, content@),
            forall|k: int| 0 <= k < faults@.len() ==> fault_wf(#[trigger] faults@[k]@),
    {
        let ghost kv = views_of(self.keywords@);
        let lines = split_lines(content);
        let ghost lv = lines_of(content@);
        let mut faults: Vec<Fault> = Vec::new();
        let n = lines.len();
        let nk = self.keywords.len();
        let mut i: usize = 0;
        proof {
            assert(fault_views(faults@) =~= Seq::<FaultView>::empty());
        }
        while i < n
            invariant
                0 <= i <= n,
                n == lines@.len(),
                nk == self.keywords@.len(),
                lv == lines_of(content@),
                views_of(lines@) == lv,
                kv == views_of(self.keywords@),
                iw_faults(path@, lv, kv, 0) =~= fault_views(faults@) + iw_faults(
                    path@,
                    lv,
                    kv,
                    i as int,
                ),
                forall|p: int| 0 <= p < faults@.len() ==> fault_wf(#[trigger] faults@[p]@),
            decreases n - i,
        {
            let line = &lines[i];
            let ghost row = (i + 1) as nat;
            proof {
                assert(line@ == lv[i as int]);
                assert(iw_faults(path@, lv, kv, i as int) =~= iw_line_faults(
                    path@,
                    row,
                    line@,
                    kv,
                    0,
                ) + iw_faults(path@, lv, kv, i + 1));
            }
            let mut k: usize = 0;
            while k < nk
                invariant
                    0 <= k <= nk,
                    0 <= i < n,
                    n == lines@.len(),
                    nk == self.keywords@.len(),
                    lv == lines_of(content@),
                    views_of(lines@) == lv,
                    kv == views_of(self.keywords@),
                    line@ == lv[i as int],
                    row == i + 1,
                    iw_faults(path@, lv, kv, 0) =~= fault_views(faults@) + iw_line_faults(
                        path@,
                        row,
                        line@,
                        kv,
                        k as int,
                    ) + iw_faults(path@, lv, kv, i + 1),
                    forall|p: int| 0 <= p < faults@.len() ==> fault_wf(#[trigger] faults@[p]@),
                decreases nk - k,
            {
                let kw = &self.keywords[k];
                proof {
                    assert(kw@ == kv[k as int]);
                    assert(iw_line_faults(path@, row, line@, kv, k as int) =~= iw_kw_faults(
                        path@,
                        row,
                        line@,
                        kw@,
                    ) + iw_line_faults(path@, row, line@, kv, k + 1));
                }
                let ms = find_matches(line.as_str(), kw.as_str());
                let klen = kw.as_str().unicode_len();
                let llen = line.as_str().unicode_len();
                let nm = ms.len();
                let ghost base = fault_views(faults@);
                let mut j: usize = 0;
                proof {
                    lemma_matches_bounds(line@, kw@, 0);
                    assert forall|p: int| 0 <= p < nm implies 0 <= #[trigger] ms@[p] && ms@[p]
                        + klen <= line@.len() by {
                        assert(ms@.map_values(|u: usize| u as int)[p] == ms@[p] as int);
                    }
                    assert(iw_kw_faults(path@, row, line@, kw@).take(0) =~= Seq::<
                        FaultView,
                    >::empty());
                }
                while j < nm
                    invariant
                        0 <= j <= nm,
                        0 <= i < n,
                        nm == ms@.len(),
                        klen == kw@.len(),
                        llen == line@.len(),
                        n == lines@.len(),
                        lv == lines_of(content@),
                        views_of(lines@) == lv,
                        line@ == lv[i as int],
                        row == i + 1,
                        ms@.map_values(|u: usize| u as int) == matches_from(line@, kw@, 0),
                        forall|p: int|
                            0 <= p < nm ==> 0 <= #[trigger] ms@[p] && ms@[p] + klen <= line@.len(),
                        iw_faults(path@, lv, kv, 0) =~= base + iw_line_faults(
                            path@,
                            row,
                            line@,
                            kv,
                            k as int,
                        ) + iw_faults(path@, lv, kv, i + 1),
                        iw_line_faults(path@, row, line@, kv, k as int) =~= iw_kw_faults(
                            path@,
                            row,
                            line@,
                            kw@,
                        ) + iw_line_faults(path@, row, line@, kv, k + 1),
                        fault_views(faults@) =~= base + iw_kw_faults(path@, row, line@, kw@).take(
                            j as int,
                        ),
                        forall|p: int| 0 <= p < faults@.len() ==> fault_wf(#[trigger] faults@[p]@),
                    decreases nm - j,
                {
                    let ghost faults0 = faults@;
                    let m = ms[j];
                    proof {
                        assert(0 <= ms@[j as int] && ms@[j as int] + klen <= line@.len());
                        assert(klen >= 1) by {
                            if klen == 0 {
                                assert(matches_from(line@, kw@, 0) =~= Seq::<int>::empty());
                            }
                        }
                    }
                    let fault = Fault {
                        msg: Message::warning("there should be no incomplete work"),
                        quote: Quote::Excerpt {
                            path: String::from_str(path),
                            row: i + 1,
                            col_from: m,
                            col_to: m + klen - 1,
                            txt: line.clone(),
                            msg: Message::bare("keyword suggests incomplete work"),
                        },
                        hints: vec![Message::help("remove keyword after completing work")],
                    };
                    proof {
                        assert(fault@.hints =~= seq![
                            MessageView {
                                lvl: Some(Level::Help),
                                txt: "remove keyword after completing work"@,
                            },
                        ]);
                        assert(fault@ == iw_fault(path@, row, line@, kw@, m as int));
                        assert(iw_kw_faults(path@, row, line@, kw@)[j as int] == iw_fault(
                            path@,
                            row,
                            line@,
                            kw@,
                            ms@[j as int] as int,
                        ));
                    }
                    faults.push(fault);
                    j = j + 1;
                    proof {
                        assert(fault_views(faults@) =~= fault_views(faults0).push(fault@));
                        assert(iw_kw_faults(path@, row, line@, kw@).take(j as int)
                            =~= iw_kw_faults(path@, row, line@, kw@).take(j - 1).push(
                            iw_kw_faults(path@, row, line@, kw@)[j - 1],
                        ));
                        assert(fault_views(faults@) =~= base + iw_kw_faults(
                            path@,
                            row,
                            line@,
                            kw@,
                        ).take(j as int));
                    }
                }
                k = k + 1;
                proof {
                    assert(iw_kw_faults(path@, row, line@, kw@).take(nm as int) =~= iw_kw_faults(
                        path@,
                        row,
                        line@,
                        kw@,
                    ));
                    assert(fault_views(faults@) =~= base + iw_kw_faults(path@, row, line@, kw@));
                    assert(iw_faults(path@, lv, kv, 0) =~= fault_views(faults@) + iw_line_faults(
                        path@,
                        row,
                        line@,
                        kv,
                        k as int,
                    ) + iw_faults(path@, lv, kv, i + 1));
                }
            }
            i = i + 1;
            proof {
                assert(iw_line_faults(path@, row, line@, kv, nk as int) =~= Seq::<
                    FaultView,
                >::empty());
                assert(iw_faults(path@, lv, kv, 0) =~= fault_views(faults@) + iw_faults(
                    path@,
                    lv,
                    kv,
                    i as int,
                ));
            }
        }
        proof {
            assert(fault_views(faults@) =~= iw_faults(path@, lv, kv, 0));
        }
        faults
    }
}

} // verus!
