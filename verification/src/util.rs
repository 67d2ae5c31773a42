//! Joining words into natural language: `"a"`, `"a or b"`,
//! `"a, b or c"`.

use vstd::prelude::*;

use crate::text::views_of;

verus! {

/// The items joined by `delim`, except for the last pair, which is
/// joined by `delim_last`.
pub open spec fn list_spec(items: Seq<Seq<char>>, delim: Seq<char>, delim_last: Seq<char>) -> Seq<
    char,
>
    decreases items.len(),
{
    if items.len() == 0 {
        Seq::empty()
    } else if items.len() == 1 {
        items[0]
    } else if items.len() == 2 {
        items[0] + delim_last + items[1]
    } else {
        items[0] + delim + list_spec(items.drop_first(), delim, delim_last)
    }
}

/// Joins the items with `delim`, using `delim_last` between the final
/// pair, matching `list_spec`.
pub fn list(items: &Vec<String>, delim: &str, delim_last: &str) -> (r: String)
    ensures
        r@ == list_spec(views_of(items@), delim@, delim_last@),
{
    let ghost views = views_of(items@);
    let n = items.len();
    let mut r = String::new();
    let mut i: usize = 0;
    proof {
        assert(views.skip(0) =~= views);
    }
    while i < n
        invariant
            0 <= i <= n,
            n == items.len(),
            views == views_of(items@),
            list_spec(views, delim@, delim_last@) =~= r@ + list_spec(
                views.skip(i as int),
                delim@,
                delim_last@,
            ),
        decreases n - i,
    {
        r.append(items[i].as_str());
        if n - i >= 3 {
            r.append(delim);
        } else if n - i == 2 {
            r.append(delim_last);
        }
        i = i + 1;
        proof {
            assert(views.skip(i - 1).drop_first() =~= views.skip(i as int));
            assert(views.skip(i - 1).len() == n - i + 1);
            assert(views.skip(i - 1)[0] == views[i - 1]);
            if n - i + 1 >= 3 {
                assert(list_spec(views.skip(i - 1), delim@, delim_last@) =~= views[i - 1] + delim@
                    + list_spec(views.skip(i as int), delim@, delim_last@));
            } else if n - i + 1 == 2 {
                assert(views.skip(i - 1)[1] == views[i as int]);
                assert(list_spec(views.skip(i - 1), delim@, delim_last@) =~= views[i - 1]
                    + delim_last@ + list_spec(views.skip(i as int), delim@, delim_last@));
            } else {
                assert(list_spec(views.skip(i - 1), delim@, delim_last@) =~= views[i - 1]
                    + list_spec(views.skip(i as int), delim@, delim_last@));
            }
            assert(list_spec(views, delim@, delim_last@) =~= r@ + list_spec(
                views.skip(i as int),
                delim@,
                delim_last@,
            ));
        }
    }
    proof {
        assert(list_spec(views, delim@, delim_last@) =~= r@);
    }
    r
}

/// Decides string equality, character by character.
pub fn str_eq(a: &str, b: &str) -> (r: bool)
    ensures
        r == (a@ == b@),
{
    let na = a.unicode_len();
    let nb = b.unicode_len();
    if na != nb {
        return false;
    }
    let mut i: usize = 0;
    while i < na
        invariant
            0 <= i <= na,
            na == a@.len(),
            na == b@.len(),
            forall|k: int| 0 <= k < i ==> a@[k] == b@[k],
        decreases na - i,
    {
        if !(a.get_char(i) == b.get_char(i)) {
            return false;
        }
        i = i + 1;
    }
    proof {
        assert(a@ =~= b@);
    }
    true
}

/// Decides whether one of the strings equals `s`.
pub fn contains_string(items: &Vec<String>, s: &str) -> (r: bool)
    ensures
        r == views_of(items@).contains(s@),
{
    let n = items.len();
    let mut i: usize = 0;
    while i < n
        invariant
            0 <= i <= n,
            n == items@.len(),
            forall|k: int| 0 <= k < i ==> items@[k]@ != s@,
        decreases n - i,
    {
        if str_eq(items[i].as_str(), s) {
            proof {
                assert(views_of(items@)[i as int] == s@);
            }
            return true;
        }
        i = i + 1;
    }
    proof {
        assert forall|k: int| 0 <= k < views_of(items@).len() implies views_of(items@)[k]
            != s@ by {
            assert(views_of(items@)[k] == items@[k]@);
        }
    }
    false
}

/// Lexicographic order on strings, by Unicode scalar value: the usual
/// ascending order of `sort`.
pub open spec fn lex_le(a: Seq<char>, b: Seq<char>) -> bool
    decreases a.len(),
{
    if a.len() == 0 {
        true
    } else if b.len() == 0 {
        false
    } else if a[0] == b[0] {
        lex_le(a.drop_first(), b.drop_first())
    } else {
        (a[0] as u32) < (b[0] as u32)
    }
}

/// With equal prefixes out of the way, the order is decided by the
/// remainders.
proof fn lemma_lex_le_skip(a: Seq<char>, b: Seq<char>, i: int)
    requires
        0 <= i <= a.len(),
        i <= b.len(),
        forall|k: int| 0 <= k < i ==> a[k] == b[k],
    ensures
        lex_le(a, b) == lex_le(a.skip(i), b.skip(i)),
    decreases i,
{
    if i > 0 {
        assert(a[0] == b[0]);
        lemma_lex_le_skip(a.drop_first(), b.drop_first(), i - 1);
        assert(a.drop_first().skip(i - 1) =~= a.skip(i));
        assert(b.drop_first().skip(i - 1) =~= b.skip(i));
        assert forall|k: int| 0 <= k < i - 1 implies a.drop_first()[k] == b.drop_first()[k] by {
            assert(a.drop_first()[k] == a[k + 1]);
            assert(b.drop_first()[k] == b[k + 1]);
        }
    } else {
        assert(a.skip(0) =~= a);
        assert(b.skip(0) =~= b);
    }
}

/// Decides `lex_le`.
pub fn str_lex_le(a: &str, b: &str) -> (r: bool)
    ensures
        r == lex_le(a@, b@),
{
    let na = a.unicode_len();
    let nb = b.unicode_len();
    let mut i: usize = 0;
    while i < na && i < nb
        invariant
            0 <= i <= na,
            i <= nb,
            na == a@.len(),
            nb == b@.len(),
            forall|k: int| 0 <= k < i ==> a@[k] == b@[k],
        decreases na - i,
    {
        let ca = a.get_char(i);
        let cb = b.get_char(i);
        if !(ca == cb) {
            proof {
                lemma_lex_le_skip(a@, b@, i as int);
                assert(a@.skip(i as int)[0] == a@[i as int]);
                assert(b@.skip(i as int)[0] == b@[i as int]);
            }
            return (ca as u32) < (cb as u32);
        }
        i = i + 1;
    }
    proof {
        lemma_lex_le_skip(a@, b@, i as int);
        if i == na {
            assert(a@.skip(i as int).len() == 0);
        } else {
            assert(b@.skip(i as int).len() == 0);
            assert(a@.skip(i as int).len() > 0);
        }
    }
    na <= nb
}

/// `x` placed into an ascending list: before the first element it
/// precedes or equals.
pub open spec fn insert_lex(x: Seq<char>, s: Seq<Seq<char>>) -> Seq<Seq<char>>
    decreases s.len(),
{
    if s.len() == 0 {
        seq![x]
    } else if lex_le(x, s[0]) {
        seq![x] + s
    } else {
        seq![s[0]] + insert_lex(x, s.drop_first())
    }
}

/// The list in ascending lexicographic order, built by insertion; a
/// duplicate keeps every copy.
pub open spec fn sort_lex(s: Seq<Seq<char>>) -> Seq<Seq<char>>
    decreases s.len(),
{
    if s.len() == 0 {
        Seq::empty()
    } else {
        insert_lex(s.last(), sort_lex(s.drop_last()))
    }
}

/// Where nothing before `j` admits `x` and `j` does (or is the end),
/// `insert_lex` puts `x` exactly at `j`.
proof fn lemma_insert_lex_at(x: Seq<char>, v: Seq<Seq<char>>, j: int)
    requires
        0 <= j <= v.len(),
        forall|k: int| 0 <= k < j ==> !lex_le(x, #[trigger] v[k]),
        j < v.len() ==> lex_le(x, v[j]),
    ensures
        insert_lex(x, v) == v.take(j) + seq![x] + v.skip(j),
    decreases v.len(),
{
    if v.len() == 0 {
        assert(insert_lex(x, v) =~= v.take(0) + seq![x] + v.skip(0));
    } else if lex_le(x, v[0]) {
        assert(j == 0);
        assert(insert_lex(x, v) =~= v.take(0) + seq![x] + v.skip(0));
    } else {
        assert(j >= 1);
        lemma_insert_lex_at(x, v.drop_first(), j - 1);
        assert(forall|k: int|
            0 <= k < j - 1 ==> #[trigger] v.drop_first()[k] == v[k + 1]);
        assert(insert_lex(x, v) =~= seq![v[0]] + (v.drop_first().take(j - 1) + seq![x]
            + v.drop_first().skip(j - 1)));
        assert(seq![v[0]] + (v.drop_first().take(j - 1) + seq![x] + v.drop_first().skip(j - 1))
            =~= v.take(j) + seq![x] + v.skip(j));
    }
}

/// Sorts the strings ascending, matching `sort_lex`.
pub fn sort_strings(items: &Vec<String>) -> (r: Vec<String>)
    ensures
        views_of(r@) == sort_lex(views_of(items@)),
{
    let mut r: Vec<String> = Vec::new();
    let n = items.len();
    let mut i: usize = 0;
    proof {
        assert(views_of(items@.take(0)) =~= Seq::<Seq<char>>::empty());
        assert(views_of(r@) =~= sort_lex(views_of(items@.take(0))));
    }
    while i < n
        invariant
            0 <= i <= n,
            n == items@.len(),
            views_of(r@) == sort_lex(views_of(items@.take(i as int))),
        decreases n - i,
    {
        let ghost r0 = r@;
        let x = items[i].clone();
        let m = r.len();
        let mut j: usize = 0;
        while j < m && !str_lex_le(x.as_str(), r[j].as_str())
            invariant
                0 <= j <= m,
                m == r@.len(),
                x@ == items@[i as int]@,
                forall|k: int| 0 <= k < j ==> !lex_le(x@, #[trigger] views_of(r@)[k]),
                r@ == r0,
            decreases m - j,
        {
            proof {
                assert(views_of(r@)[j as int] == r@[j as int]@);
            }
            j = j + 1;
        }
        proof {
            assert(j < m ==> views_of(r@)[j as int] == r@[j as int]@);
        }
        r.insert(j, x);
        i = i + 1;
        proof {
            lemma_insert_lex_at(items@[i - 1]@, views_of(r0), j as int);
            assert(views_of(r@) =~= views_of(r0).take(j as int) + seq![items@[i - 1]@]
                + views_of(r0).skip(j as int));
            assert(views_of(items@.take(i as int)).drop_last() =~= views_of(
                items@.take(i - 1),
            ));
            assert(views_of(items@.take(i as int)).last() == items@[i - 1]@);
            assert(views_of(r@) =~= sort_lex(views_of(items@.take(i as int))));
        }
    }
    proof {
        assert(items@.take(n as int) =~= items@);
    }
    r
}

/// Joins with commas and a final `" and "`.
pub fn list_and(items: &Vec<String>) -> (r: String)
    ensures
        r@ == list_spec(views_of(items@), ", "@, " and "@),
{
    list(items, ", ", " and ")
}

/// Joins with commas and a final `" or "`.
pub fn list_or(items: &Vec<String>) -> (r: String)
    ensures
        r@ == list_spec(views_of(items@), ", "@, " or "@),
{
    list(items, ", ", " or ")
}

} // verus!
