//! Which listing page a run reads.
use rand::seq::SliceRandom;
use vstd::prelude::*;
use vstd::string::StringExecFns;

verus! {

/// Where the listing of a topic starts.
pub const LISTING: &'static str = "https://stackoverflow.com/questions/tagged/";

/// How a listing is ordered: by votes.
pub const BY_VOTES: &'static str = "?tab=Votes";

/// The topics that a run chooses from.
pub open spec fn topics() -> Seq<Seq<char>> {
    seq!["python"@, "rust"@, "c#"@, "android"@, "html"@, "javascript"@]
}

/// The address of the listing of a topic.
pub open spec fn listing_url(topic: Seq<char>) -> Seq<char> {
    LISTING@ + topic + BY_VOTES@
}

/// The characters of each name of a list.
pub open spec fn names(list: Seq<&'static str>) -> Seq<Seq<char>> {
    list.map_values(|name: &'static str| name@)
}

/// Calls `SliceRandom::choose` on a list of names, with the generator that
/// `rand::thread_rng` gives. Which name comes is left to chance; the contract
/// states what the function's documentation gives for every outcome: a name of
/// the list, and none only for an empty list.
#[verifier::external_body]
fn pick(list: &Vec<&'static str>) -> (picked: Option<&'static str>)
    ensures
        list@.len() == 0 ==> picked.is_none(),
        list@.len() > 0 ==> picked.is_some() && names(list@).contains(picked.unwrap()@),
{
    list.choose(&mut rand::thread_rng()).copied()
}

/// The topics that a run chooses from.
pub fn default_tags() -> (list: Vec<&'static str>)
    ensures
        names(list@) == topics(),
{
    let mut list: Vec<&'static str> = Vec::new();
    list.push("python");
    list.push("rust");
    list.push("c#");
    list.push("android");
    list.push("html");
    list.push("javascript");
    assert(names(list@) =~= topics());
    list
}

/// Builds the address of the listing of a topic.
pub fn url_of(topic: &str) -> (url: String)
    ensures
        url@ == listing_url(topic@),
{
    String::from_str(LISTING).concat(topic).concat(BY_VOTES)
}

/// Chooses one of the topics at random and gives the address of its listing.
pub fn get_random_url() -> (url: String)
    ensures
        exists|i: int| 0 <= i < topics().len() && url@ == listing_url(#[trigger] topics()[i]),
{
    let list = default_tags();
    let picked = pick(&list);
    let topic = picked.unwrap();
    proof {
        let i = names(list@).index_of(topic@);
        assert(topics()[i] == topic@);
    }
    url_of(topic)
}

} // verus!
