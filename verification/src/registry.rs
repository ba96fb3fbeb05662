//! Joins the providers into one view and routes actions by global id.
use vstd::prelude::*;

use crate::error::Error;
use crate::model::{lemma_split_id_inverts_global_id, qualified_id, Job};
use crate::text::{after_first, before_first, lemma_split_at_first, str_eq};

verus! {

/// The registered providers, by id, in registration order.
pub struct Registry {
    provider_ids: Vec<String>,
}

impl View for Registry {
    type V = Seq<Seq<char>>;

    closed spec fn view(&self) -> Seq<Seq<char>> {
        self.provider_ids@.map_values(|s: String| s@)
    }
}

/// `r` is where the global id `global_id` routes among providers `ids`:
/// an id without `:` is invalid; a provider part that no provider has is
/// unavailable; otherwise the first provider with that id, and the local id
/// after the first `:`.
pub open spec fn routes(
    ids: Seq<Seq<char>>,
    global_id: Seq<char>,
    r: Result<(usize, String), Error>,
) -> bool {
    match r {
        Ok((i, local_id)) => {
            &&& global_id.contains(':')
            &&& i < ids.len()
            &&& ids[i as int] == before_first(global_id, ':')
            &&& local_id@ == after_first(global_id, ':')
            &&& forall|j: int| 0 <= j < i ==> ids[j] != ids[i as int]
        },
        Err(Error::InvalidId(s)) => !global_id.contains(':') && s@ == global_id,
        Err(Error::Unavailable(s)) => {
            &&& global_id.contains(':')
            &&& s@ == before_first(global_id, ':')
            &&& forall|j: int| 0 <= j < ids.len() ==> ids[j] != s@
        },
        Err(_) => false,
    }
}

/// The jobs of the listings that succeeded, in provider order.
pub open spec fn listed_jobs(listings: Seq<Result<Vec<Job>, Error>>) -> Seq<Job>
    decreases listings.len(),
{
    if listings.len() == 0 {
        Seq::empty()
    } else {
        (match listings[0] {
            Ok(jobs) => jobs@,
            Err(_) => Seq::empty(),
        }) + listed_jobs(listings.drop_first())
    }
}

/// A listing succeeded.
pub open spec fn listing_ok(l: Result<Vec<Job>, Error>) -> bool {
    l is Ok
}

/// The jobs of a successful listing.
pub open spec fn listing_jobs(l: Result<Vec<Job>, Error>) -> Seq<Job> {
    l->Ok_0@
}

/// Every job of every successful listing is in the merged list, and nothing
/// else: the merged list is the successful listings' jobs one listing after
/// the other, in provider order (so its length is the sum of their lengths).
pub proof fn lemma_merge_keeps_every_listing(listings: Seq<Result<Vec<Job>, Error>>)
    ensures
        listed_jobs(listings) == listings.filter(|l: Result<Vec<Job>, Error>| listing_ok(l)).map_values(
            |l: Result<Vec<Job>, Error>| listing_jobs(l),
        ).flatten(),
    decreases listings.len(),
{
    let pred = |l: Result<Vec<Job>, Error>| listing_ok(l);
    let jobs_of = |l: Result<Vec<Job>, Error>| listing_jobs(l);
    reveal(Seq::filter);
    if listings.len() == 0 {
        assert(listings.filter(pred) =~= Seq::<Result<Vec<Job>, Error>>::empty());
        assert(listings.filter(pred).map_values(jobs_of) =~= Seq::<Seq<Job>>::empty());
    } else {
        let head = seq![listings[0]];
        let tail = listings.drop_first();
        lemma_merge_keeps_every_listing(tail);
        assert(listings =~= head + tail);
        Seq::filter_distributes_over_add(head, tail, pred);
        assert(head.drop_last() =~= Seq::<Result<Vec<Job>, Error>>::empty());
        assert(Seq::<Result<Vec<Job>, Error>>::empty().filter(pred) =~= Seq::<
            Result<Vec<Job>, Error>,
        >::empty());
        assert(head.last() == listings[0]);
        let hf = head.filter(pred);
        let rest = tail.filter(pred).map_values(jobs_of);
        assert((hf + tail.filter(pred)).map_values(jobs_of) =~= hf.map_values(jobs_of) + rest);
        if listings[0] is Ok {
            assert(hf =~= seq![listings[0]]);
            let all = hf.map_values(jobs_of) + rest;
            assert(all.first() == listing_jobs(listings[0]));
            assert(all.drop_first() =~= rest);
        } else {
            assert(hf =~= Seq::<Result<Vec<Job>, Error>>::empty());
            assert(hf.map_values(jobs_of) + rest =~= rest);
            assert(listed_jobs(listings) =~= listed_jobs(tail));
        }
    }
}

impl Registry {
    /// A registry of the providers with these ids, in this order.
    pub fn new(provider_ids: Vec<String>) -> (r: Self)
        ensures
            r@ == provider_ids@.map_values(|s: String| s@),
    {
        Registry { provider_ids }
    }

    /// Number of registered providers.
    pub fn len(&self) -> (n: usize)
        ensures
            n == self@.len(),
    {
        self.provider_ids.len()
    }

    /// Finds the provider of a global id, and the job's id within it.
    pub fn route(&self, global_id: &str) -> (r: Result<(usize, String), Error>)
        ensures
            routes(self@, global_id@, r),
    {
        let (provider_id, local_id) = match Job::split_id(global_id) {
            Some(parts) => parts,
            None => {
                return Err(Error::InvalidId(String::from_str(global_id)));
            },
        };
        proof {
            assert(global_id@[provider_id@.len() as int] == ':');
        }
        let n = self.provider_ids.len();
        let mut i: usize = 0;
        while i < n
            invariant
                n == self.provider_ids@.len(),
                n == self@.len(),
                global_id@.contains(':'),
                local_id@ == after_first(global_id@, ':'),
                i <= n,
                provider_id@ == before_first(global_id@, ':'),
                forall|j: int| 0 <= j < i ==> self@[j] != provider_id@,
            decreases n - i,
        {
            assert(self@[i as int] == self.provider_ids@[i as int]@);
            if str_eq(self.provider_ids[i].as_str(), provider_id) {
                return Ok((i, String::from_str(local_id)));
            }
            i = i + 1;
        }
        Err(Error::Unavailable(String::from_str(provider_id)))
    }

    /// All jobs of all providers, given each provider's listing in order. A
    /// provider whose listing failed is skipped: one mechanism failing does
    /// not take down the view of the others.
    pub fn merge_listings(listings: Vec<Result<Vec<Job>, Error>>) -> (all: Vec<Job>)
        ensures
            all@ == listed_jobs(listings@),
    {
        let ghost orig = listings@;
        let ghost mut done: int = 0;
        let mut rest = listings;
        let mut all: Vec<Job> = Vec::new();
        while rest.len() > 0
            invariant
                0 <= done <= orig.len(),
                rest@ == orig.skip(done),
                all@ + listed_jobs(rest@) == listed_jobs(orig),
            decreases rest@.len(),
        {
            let ghost before = rest@;
            let listing = rest.remove(0);
            proof {
                assert(rest@ =~= before.drop_first());
                assert(orig.skip(done).drop_first() =~= orig.skip(done + 1));
                done = done + 1;
            }
            match listing {
                Ok(jobs) => {
                    let mut jobs = jobs;
                    let ghost a = all@;
                    let ghost j = jobs@;
                    all.append(&mut jobs);
                    assert(a + (j + listed_jobs(rest@)) =~= all@ + listed_jobs(rest@));
                },
                Err(_) => {
                    assert(all@ + listed_jobs(rest@) =~= all@ + (Seq::<Job>::empty() + listed_jobs(rest@)));
                },
            }
        }
        assert(all@ + listed_jobs(rest@) =~= all@);
        all
    }
}

/// Where a global id goes: it is invalid exactly when it holds no `:`; its
/// provider is unavailable exactly when no registered provider has the id
/// before its first `:`; otherwise it goes to a provider with that id (the
/// first one), and the global id is that provider's id, `:`, and the local id.
pub proof fn lemma_route_outcomes(
    ids: Seq<Seq<char>>,
    global_id: Seq<char>,
    r: Result<(usize, String), Error>,
)
    requires
        routes(ids, global_id, r),
    ensures
        (r matches Err(Error::InvalidId(_))) <==> !global_id.contains(':'),
        (r matches Err(Error::Unavailable(_))) <==> (global_id.contains(':') && forall|j: int|
            0 <= j < ids.len() ==> #[trigger] ids[j] != before_first(global_id, ':')),
        r is Ok <==> (global_id.contains(':') && exists|j: int|
            0 <= j < ids.len() && #[trigger] ids[j] == before_first(global_id, ':')),
        r matches Ok((i, l)) ==> {
            &&& global_id == ids[i as int] + seq![':'] + l@
            &&& !ids[i as int].contains(':')
            &&& forall|j: int| 0 <= j < i ==> ids[j] != ids[i as int]
        },
{
    if global_id.contains(':') {
        lemma_split_at_first(global_id, ':');
    }
    if r is Ok {
        let i = r->Ok_0.0;
        assert(ids[i as int] == before_first(global_id, ':'));
    }
}

/// A global id built from a registered provider's id (which holds no `:`)
/// and any local id routes to that provider, with that local id.
pub proof fn lemma_route_of_global_id(
    ids: Seq<Seq<char>>,
    provider: Seq<char>,
    local_id: Seq<char>,
    r: Result<(usize, String), Error>,
)
    requires
        ids.contains(provider),
        !provider.contains(':'),
        routes(ids, qualified_id(provider, local_id), r),
    ensures
        r matches Ok((i, l)) && ids[i as int] == provider && l@ == local_id,
{
    lemma_split_id_inverts_global_id(provider, local_id);
}

} // verus!
