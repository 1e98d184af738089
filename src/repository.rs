use vstd::prelude::*;

verus! {

/// One search result as the remote API reports it.
pub struct RepositoryWithStars {
    pub name: String,
    pub description: Option<String>,
    pub html_url: String,
    pub stargazers_count: u32,
}

/// The body of one page of search results.
pub struct SearchResult {
    pub items: Vec<RepositoryWithStars>,
}

/// A repository as the pipeline keeps it: its visible fields and the star
/// count that orders the output.
pub struct Repository {
    pub name: String,
    pub description: Option<String>,
    pub html_url: String,
    pub stargazers_count: u32,
}

/// What the output shows of a repository: the star count is left out.
pub struct Entry {
    pub name: String,
    pub description: Option<String>,
    pub html_url: String,
}

/// The visible fields of a record, as values: name, description, URL.
pub type Fields = (Seq<char>, Option<Seq<char>>, Seq<char>);

pub open spec fn opt_view(o: Option<String>) -> Option<Seq<char>> {
    match o {
        Some(s) => Some(s@),
        None => None,
    }
}

pub open spec fn remote_fields(i: RepositoryWithStars) -> Fields {
    (i.name@, opt_view(i.description), i.html_url@)
}

pub open spec fn repository_fields(r: Repository) -> Fields {
    (r.name@, opt_view(r.description), r.html_url@)
}

pub open spec fn entry_fields(e: Entry) -> Fields {
    (e.name@, opt_view(e.description), e.html_url@)
}

/// The repository that keeps every field of a remote item.
pub open spec fn to_repository(i: RepositoryWithStars) -> Repository {
    Repository {
        name: i.name,
        description: i.description,
        html_url: i.html_url,
        stargazers_count: i.stargazers_count,
    }
}

/// The output entry of a repository: its visible fields.
pub open spec fn to_entry(r: Repository) -> Entry {
    Entry { name: r.name, description: r.description, html_url: r.html_url }
}

impl Repository {
    /// Takes over every field of a remote item.
    pub fn from_remote(item: RepositoryWithStars) -> (r: Repository)
        ensures
            r == to_repository(item),
    {
        Repository {
            name: item.name,
            description: item.description,
            html_url: item.html_url,
            stargazers_count: item.stargazers_count,
        }
    }

    /// Drops the star count.
    pub fn into_entry(self) -> (e: Entry)
        ensures
            e == to_entry(self),
    {
        Entry { name: self.name, description: self.description, html_url: self.html_url }
    }
}

/// Mapping a remote item to a repository and then to its visible fields loses
/// nothing of its name, description or URL, and the entry shown for it carries
/// the same three fields.
pub proof fn lemma_mapping_keeps_fields(i: RepositoryWithStars)
    ensures
        repository_fields(to_repository(i)) == remote_fields(i),
        entry_fields(to_entry(to_repository(i))) == remote_fields(i),
        to_repository(i).stargazers_count == i.stargazers_count,
{
}

/// Maps every remote item to a repository, in order.
pub fn into_repositories(items: Vec<RepositoryWithStars>) -> (r: Vec<Repository>)
    ensures
        r@ == items@.map_values(|i: RepositoryWithStars| to_repository(i)),
{
    let mut rest = items;
    let mut out: Vec<Repository> = Vec::new();
    while rest.len() > 0
        invariant
            out@ + rest@.map_values(|i: RepositoryWithStars| to_repository(i))
                == items@.map_values(|i: RepositoryWithStars| to_repository(i)),
        decreases rest.len(),
    {
        let ghost before = rest@;
        let item = rest.remove(0);
        proof {
            assert(before == seq![item] + rest@);
            assert(before.map_values(|i: RepositoryWithStars| to_repository(i)) =~= seq![
                to_repository(item),
            ] + rest@.map_values(|i: RepositoryWithStars| to_repository(i)));
        }
        out.push(Repository::from_remote(item));
        proof {
            assert(out@ + rest@.map_values(|i: RepositoryWithStars| to_repository(i))
                =~= items@.map_values(|i: RepositoryWithStars| to_repository(i)));
        }
    }
    proof {
        assert(rest@.map_values(|i: RepositoryWithStars| to_repository(i)) =~= Seq::<Repository>::empty());
        assert(out@ =~= out@ + Seq::<Repository>::empty());
    }
    out
}

/// Projects each repository to the entry shown for it, in order.
pub fn into_entries(repos: Vec<Repository>) -> (r: Vec<Entry>)
    ensures
        r@ == repos@.map_values(|x: Repository| to_entry(x)),
{
    let mut rest = repos;
    let mut out: Vec<Entry> = Vec::new();
    while rest.len() > 0
        invariant
            out@ + rest@.map_values(|x: Repository| to_entry(x))
                == repos@.map_values(|x: Repository| to_entry(x)),
        decreases rest.len(),
    {
        let ghost before = rest@;
        let r = rest.remove(0);
        proof {
            assert(before == seq![r] + rest@);
            assert(before.map_values(|x: Repository| to_entry(x)) =~= seq![to_entry(r)]
                + rest@.map_values(|x: Repository| to_entry(x)));
        }
        out.push(r.into_entry());
        proof {
            assert(out@ + rest@.map_values(|x: Repository| to_entry(x))
                =~= repos@.map_values(|x: Repository| to_entry(x)));
        }
    }
    proof {
        assert(rest@.map_values(|x: Repository| to_entry(x)) =~= Seq::<Entry>::empty());
        assert(out@ =~= out@ + Seq::<Entry>::empty());
    }
    out
}

} // verus!
