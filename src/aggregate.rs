use vstd::prelude::*;
use vstd::multiset::Multiset;
use crate::page::PageError;
use crate::repository::{entry_fields, repository_fields, to_entry, Entry, Repository};

verus! {

broadcast use vstd::seq_lib::group_to_multiset_ensures, vstd::multiset::group_multiset_axioms;

/// Whether `s` is in ascending order of star count.
pub open spec fn sorted_by_stars(s: Seq<Repository>) -> bool {
    forall|i: int, j: int|
        0 <= i < j < s.len() ==> #[trigger] s[i].stargazers_count <= #[trigger] s[j].stargazers_count
}

/// `s` with `x` placed after every repository of `s` that has at most `x`'s
/// star count, counting from the end.
pub open spec fn insert_by_stars(s: Seq<Repository>, x: Repository) -> Seq<Repository>
    decreases s.len(),
{
    if s.len() == 0 {
        seq![x]
    } else if s.last().stargazers_count <= x.stargazers_count {
        s.push(x)
    } else {
        insert_by_stars(s.drop_last(), x).push(s.last())
    }
}

/// The stable order of `s` by ascending star count: repositories with equal
/// counts keep their relative order.
pub open spec fn by_stars(s: Seq<Repository>) -> Seq<Repository>
    decreases s.len(),
{
    if s.len() == 0 {
        s
    } else {
        insert_by_stars(by_stars(s.drop_last()), s.last())
    }
}

/// What one page adds to the aggregate: its repositories if it succeeded,
/// nothing if it failed.
pub open spec fn page_items(p: Result<Vec<Repository>, PageError>) -> Seq<Repository> {
    match p {
        Ok(v) => v@,
        Err(_) => Seq::empty(),
    }
}

/// The repositories of the pages that succeeded, page after page.
pub open spec fn successful_items(pages: Seq<Result<Vec<Repository>, PageError>>) -> Seq<Repository>
    decreases pages.len(),
{
    if pages.len() == 0 {
        Seq::empty()
    } else {
        successful_items(pages.drop_last()) + page_items(pages.last())
    }
}

/// `out` is a merge of `pages`: exactly the repositories of the pages that
/// succeeded, each as often as it came, in ascending order of star count.
pub open spec fn merge_of(pages: Seq<Result<Vec<Repository>, PageError>>, out: Seq<Repository>) -> bool {
    &&& sorted_by_stars(out)
    &&& out.to_multiset() == successful_items(pages).to_multiset()
}

proof fn lemma_insert_by_stars_at(s: Seq<Repository>, j: int, x: Repository)
    requires
        0 <= j <= s.len(),
        j > 0 ==> s[j - 1].stargazers_count <= x.stargazers_count,
        forall|k: int| j <= k < s.len() ==> #[trigger] s[k].stargazers_count > x.stargazers_count,
    ensures
        insert_by_stars(s, x) == s.insert(j, x),
    decreases s.len(),
{
    if s.len() == 0 {
        assert(s.insert(j, x) =~= seq![x]);
    } else if j == s.len() {
        assert(s.insert(j, x) =~= s.push(x));
    } else {
        let dl = s.drop_last();
        assert(s.last().stargazers_count > x.stargazers_count);
        lemma_insert_by_stars_at(dl, j, x);
        assert(dl.insert(j, x).push(s.last()) =~= s.insert(j, x));
    }
}

proof fn lemma_insert_to_multiset(s: Seq<Repository>, j: int, x: Repository)
    requires
        0 <= j <= s.len(),
    ensures
        s.insert(j, x).to_multiset() == s.to_multiset().insert(x),
{
    let t = s.insert(j, x);
    assert(t.remove(j) =~= s);
    assert(t[j] == x);
    assert(t.contains(x));
    assert(t.to_multiset() =~= s.to_multiset().insert(x));
}

/// Orders repositories by ascending star count; equal counts keep their
/// relative order.
pub fn sort_by_stars(v: Vec<Repository>) -> (r: Vec<Repository>)
    ensures
        r@ == by_stars(v@),
        sorted_by_stars(r@),
        r@.to_multiset() == v@.to_multiset(),
{
    let mut rest = v;
    let mut out: Vec<Repository> = Vec::new();
    let ghost done: Seq<Repository> = Seq::empty();
    proof {
        assert(done + rest@ =~= v@);
        assert(out@.to_multiset() =~= Multiset::empty());
        assert(out@.to_multiset().add(rest@.to_multiset()) =~= v@.to_multiset());
    }
    while rest.len() > 0
        invariant
            done + rest@ == v@,
            out@ == by_stars(done),
            sorted_by_stars(out@),
            out@.to_multiset().add(rest@.to_multiset()) == v@.to_multiset(),
        decreases rest.len(),
    {
        let ghost rest0 = rest@;
        let ghost out0 = out@;
        let x = rest.remove(0);
        let mut j: usize = out.len();
        while j > 0 && out[j - 1].stargazers_count > x.stargazers_count
            invariant
                j <= out@.len(),
                out@ == out0,
                forall|k: int| j <= k < out@.len() ==> #[trigger] out@[k].stargazers_count > x.stargazers_count,
            decreases j,
        {
            j = j - 1;
        }
        proof {
            if j > 0 {
                assert forall|k: int| 0 <= k < j implies #[trigger] out0[k].stargazers_count <= x.stargazers_count by {
                    if k < j - 1 {
                        assert(out0[k].stargazers_count <= out0[j - 1].stargazers_count);
                    }
                }
            }
        }
        out.insert(j, x);
        proof {
            let o = out@;
            assert(o == out0.insert(j as int, x));
            assert forall|a: int, b: int| 0 <= a < b < o.len() implies
                #[trigger] o[a].stargazers_count <= #[trigger] o[b].stargazers_count by {
                if b < j {
                    assert(o[a] == out0[a] && o[b] == out0[b]);
                } else if b == j {
                    assert(o[a] == out0[a]);
                } else if a < j {
                    assert(o[a] == out0[a] && o[b] == out0[b - 1]);
                } else if a == j {
                    assert(o[b] == out0[b - 1]);
                } else {
                    assert(o[a] == out0[a - 1] && o[b] == out0[b - 1]);
                }
            }
            lemma_insert_to_multiset(out0, j as int, x);
            lemma_insert_by_stars_at(out0, j as int, x);
            let d = done.push(x);
            assert(d.drop_last() =~= done);
            assert(d + rest@ =~= done + rest0);
            done = d;
            assert(rest0.remove(0) == rest@);
            assert(rest@.to_multiset() == rest0.to_multiset().remove(x));
            assert(rest0.contains(x)) by {
                assert(rest0[0] == x);
            }
            assert(out@.to_multiset().add(rest@.to_multiset()) =~= v@.to_multiset());
        }
    }
    proof {
        assert(rest@.to_multiset() =~= Multiset::empty());
        assert(out@.to_multiset() =~= v@.to_multiset());
        assert(done =~= v@);
    }
    out
}

/// The collection that the pages that succeeded are appended to, one page at
/// a time, until every page has been heard from.
pub struct Aggregate {
    repos: Vec<Repository>,
}

impl View for Aggregate {
    type V = Seq<Repository>;

    closed spec fn view(&self) -> Seq<Repository> {
        self.repos@
    }
}

impl Aggregate {
    /// An aggregate that holds nothing yet.
    pub fn new() -> (r: Aggregate)
        ensures
            r@ == Seq::<Repository>::empty(),
    {
        Aggregate { repos: Vec::new() }
    }

    /// Records the outcome of one page: a page that succeeded has its
    /// repositories appended in its order; a failed page adds nothing.
    pub fn add_page(&mut self, page: Result<Vec<Repository>, PageError>)
        ensures
            final(self)@ == old(self)@ + page_items(page),
    {
        match page {
            Ok(v) => {
                let mut v = v;
                self.repos.append(&mut v);
            },
            Err(_) => {
                assert(old(self)@ + page_items(page) =~= old(self)@);
            },
        }
    }

    /// How many repositories have been collected.
    pub fn len(&self) -> (r: usize)
        ensures
            r == self@.len(),
    {
        self.repos.len()
    }

    /// Everything collected, in ascending order of star count.
    pub fn into_sorted(self) -> (r: Vec<Repository>)
        ensures
            r@ == by_stars(self@),
            sorted_by_stars(r@),
            r@.to_multiset() == self@.to_multiset(),
    {
        sort_by_stars(self.repos)
    }
}

/// Merges the outcomes of all pages, in whatever order they completed: the
/// repositories of the pages that succeeded, in ascending order of star
/// count. Failed pages contribute nothing and never fail the merge.
pub fn merge_pages(pages: Vec<Result<Vec<Repository>, PageError>>) -> (r: Vec<Repository>)
    ensures
        r@ == by_stars(successful_items(pages@)),
        merge_of(pages@, r@),
{
    let mut rest = pages;
    let mut agg = Aggregate::new();
    let ghost done: Seq<Result<Vec<Repository>, PageError>> = Seq::empty();
    proof {
        assert(successful_items(done) =~= agg@);
        assert(done + rest@ =~= pages@);
    }
    while rest.len() > 0
        invariant
            done + rest@ == pages@,
            agg@ == successful_items(done),
        decreases rest.len(),
    {
        let ghost rest0 = rest@;
        let page = rest.remove(0);
        agg.add_page(page);
        proof {
            let d = done.push(page);
            assert(d.drop_last() =~= done);
            assert(successful_items(d) == successful_items(done) + page_items(page));
            assert(d + rest@ =~= done + rest0);
            done = d;
        }
    }
    proof {
        assert(done =~= pages@);
    }
    agg.into_sorted()
}

/// Taking one page out of the outcomes takes away exactly that page's
/// repositories.
pub proof fn lemma_successful_remove(s: Seq<Result<Vec<Repository>, PageError>>, i: int)
    requires
        0 <= i < s.len(),
    ensures
        successful_items(s).to_multiset()
            == successful_items(s.remove(i)).to_multiset().add(page_items(s[i]).to_multiset()),
    decreases s.len(),
{
    let dl = s.drop_last();
    if i == s.len() - 1 {
        assert(s.remove(i) =~= dl);
        vstd::seq_lib::lemma_multiset_commutative(successful_items(dl), page_items(s.last()));
    } else {
        let r = s.remove(i);
        assert(r.drop_last() =~= dl.remove(i));
        assert(r.last() == s.last());
        lemma_successful_remove(dl, i);
        vstd::seq_lib::lemma_multiset_commutative(successful_items(dl), page_items(s.last()));
        vstd::seq_lib::lemma_multiset_commutative(successful_items(r.drop_last()), page_items(r.last()));
        assert(successful_items(s).to_multiset()
            =~= successful_items(r).to_multiset().add(page_items(s[i]).to_multiset()));
    }
}

/// The order in which pages complete does not change what is merged: two
/// arrangements of the same page outcomes hold the same repositories.
pub proof fn lemma_order_independent(
    a: Seq<Result<Vec<Repository>, PageError>>,
    b: Seq<Result<Vec<Repository>, PageError>>,
)
    requires
        a.to_multiset() == b.to_multiset(),
    ensures
        successful_items(a).to_multiset() == successful_items(b).to_multiset(),
    decreases a.len(),
{
    if a.len() == 0 {
        assert(a.to_multiset().len() == 0);
        assert(b.to_multiset().len() == b.len());
        assert(b.len() == 0);
        assert(b =~= Seq::<Result<Vec<Repository>, PageError>>::empty());
    } else {
        let x = a.last();
        assert(a.to_multiset().count(x) > 0) by {
            assert(a.contains(x)) by {
                assert(a[a.len() - 1] == x);
            }
        }
        assert(b.contains(x));
        let j = choose|j: int| 0 <= j < b.len() && b[j] == x;
        assert(a.remove(a.len() - 1) =~= a.drop_last());
        assert(a.drop_last().to_multiset() == b.remove(j).to_multiset());
        lemma_order_independent(a.drop_last(), b.remove(j));
        lemma_successful_remove(b, j);
        vstd::seq_lib::lemma_multiset_commutative(successful_items(a.drop_last()), page_items(x));
    }
}

/// The number of repositories that the pages returned, all pages counted.
pub open spec fn total_items(pages: Seq<Result<Vec<Repository>, PageError>>) -> nat
    decreases pages.len(),
{
    if pages.len() == 0 {
        0
    } else {
        total_items(pages.drop_last()) + page_items(pages.last()).len()
    }
}

proof fn lemma_successful_len(pages: Seq<Result<Vec<Repository>, PageError>>)
    ensures
        successful_items(pages).len() == total_items(pages),
    decreases pages.len(),
{
    if pages.len() > 0 {
        lemma_successful_len(pages.drop_last());
    }
}

/// When every page succeeds, a merge holds as many repositories as all pages
/// together returned.
pub proof fn lemma_merge_complete(pages: Seq<Result<Vec<Repository>, PageError>>, out: Seq<Repository>)
    requires
        forall|i: int| 0 <= i < pages.len() ==> #[trigger] pages[i] is Ok,
        merge_of(pages, out),
    ensures
        out.len() == total_items(pages),
{
    lemma_successful_len(pages);
    assert(out.to_multiset().len() == successful_items(pages).to_multiset().len());
}

/// Every adjacent pair of a merge is in ascending order of star count.
pub proof fn lemma_merge_sorted(pages: Seq<Result<Vec<Repository>, PageError>>, out: Seq<Repository>)
    requires
        merge_of(pages, out),
    ensures
        forall|i: int| 0 <= i < out.len() - 1
            ==> #[trigger] out[i].stargazers_count <= out[i + 1].stargazers_count,
{
    assert forall|i: int| 0 <= i < out.len() - 1
        implies #[trigger] out[i].stargazers_count <= out[i + 1].stargazers_count by {
        assert(out[i].stargazers_count <= out[i + 1].stargazers_count);
    }
}

/// `e` shows the name, description and URL of one of `repos`.
pub open spec fn shown_from(e: Entry, repos: Seq<Repository>) -> bool {
    exists|j: int| 0 <= j < repos.len() && entry_fields(e) == #[trigger] repository_fields(repos[j])
}

/// Every repository of a merge is one that a page that succeeded returned,
/// and the entry shown for it carries exactly that repository's name,
/// description and URL.
pub proof fn lemma_merge_from_pages(
    pages: Seq<Result<Vec<Repository>, PageError>>,
    out: Seq<Repository>,
    entries: Seq<Entry>,
)
    requires
        merge_of(pages, out),
        entries == out.map_values(|r: Repository| to_entry(r)),
    ensures
        entries.len() == out.len(),
        forall|k: int| 0 <= k < out.len() ==> successful_items(pages).contains(#[trigger] out[k]),
        forall|k: int| 0 <= k < entries.len() ==> shown_from(#[trigger] entries[k], successful_items(pages)),
{
    let all = successful_items(pages);
    assert forall|k: int| 0 <= k < out.len() implies all.contains(#[trigger] out[k]) by {
        assert(out.contains(out[k]));
        assert(out.to_multiset().count(out[k]) > 0);
        assert(all.to_multiset().count(out[k]) > 0);
    }
    assert forall|k: int| 0 <= k < entries.len() implies shown_from(#[trigger] entries[k], all) by {
        assert(all.contains(out[k]));
        let j = choose|j: int| 0 <= j < all.len() && all[j] == out[k];
        assert(entries[k] == to_entry(out[k]));
        assert(entry_fields(entries[k]) == repository_fields(all[j]));
    }
}

/// When exactly one page fails, a merge holds exactly the repositories of
/// the other pages.
pub proof fn lemma_one_failure_isolated(
    pages: Seq<Result<Vec<Repository>, PageError>>,
    f: int,
    out: Seq<Repository>,
)
    requires
        0 <= f < pages.len(),
        pages[f] is Err,
        forall|i: int| 0 <= i < pages.len() && i != f ==> #[trigger] pages[i] is Ok,
        merge_of(pages, out),
    ensures
        out.to_multiset() == successful_items(pages.remove(f)).to_multiset(),
        out.len() == total_items(pages.remove(f)),
{
    lemma_successful_remove(pages, f);
    assert(page_items(pages[f]).to_multiset() =~= Multiset::empty());
    assert(successful_items(pages).to_multiset() =~= successful_items(pages.remove(f)).to_multiset());
    lemma_successful_len(pages.remove(f));
    assert(out.to_multiset().len() == successful_items(pages.remove(f)).to_multiset().len());
}

/// Two merges of the same page outcomes, completed in different orders, hold
/// the same repositories.
pub proof fn lemma_merge_order_independent(
    a: Seq<Result<Vec<Repository>, PageError>>,
    b: Seq<Result<Vec<Repository>, PageError>>,
    out_a: Seq<Repository>,
    out_b: Seq<Repository>,
)
    requires
        a.to_multiset() == b.to_multiset(),
        merge_of(a, out_a),
        merge_of(b, out_b),
    ensures
        out_a.to_multiset() == out_b.to_multiset(),
        out_a.len() == out_b.len(),
{
    lemma_order_independent(a, b);
    assert(out_a.to_multiset().len() == out_b.to_multiset().len());
}

} // verus!
