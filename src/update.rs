//! The update decision for one lockfile entry: which remote tag is the
//! latest, and whether it replaces the locked one.
use vstd::prelude::*;

use crate::version::{
    format_version, is_release_model, parse_version, version_lt, Error, GitDescribeVersion,
    VersionModel,
};

verus! {

/// One entry of a lockfile.
pub struct ImageDefinition {
    /// Registry-qualified reference, without a tag.
    pub image: String,
    /// The locked version.
    pub tag: String,
    /// Content digest of the locked tag.
    pub digest: String,
    pub platforms: Vec<String>,
}

/// The pair at `k` of a listing of `(tag, digest)` pairs is a candidate: its
/// tag parses, and it is a release unless snapshots are allowed.
pub open spec fn is_candidate(items: Seq<(String, String)>, k: int, allow_snapshots: bool) -> bool {
    &&& 0 <= k < items.len()
    &&& parse_version(items[k].0@) is Some
    &&& allow_snapshots || is_release_model(parse_version(items[k].0@)->0)
}

pub open spec fn candidate_version(items: Seq<(String, String)>, k: int) -> VersionModel {
    parse_version(items[k].0@)->0
}

/// The pair at `k` is the one selected: a candidate that no candidate ranks
/// above, and the last of those in the listing.
pub open spec fn is_selected(items: Seq<(String, String)>, k: int, allow_snapshots: bool) -> bool {
    &&& is_candidate(items, k, allow_snapshots)
    &&& forall|j: int|
        is_candidate(items, j, allow_snapshots) ==> !version_lt(
            #[trigger] candidate_version(items, k),
            candidate_version(items, j),
        )
    &&& forall|j: int|
        k < j && is_candidate(items, j, allow_snapshots) ==> version_lt(
            #[trigger] candidate_version(items, j),
            candidate_version(items, k),
        )
}

/// The latest version in a listing and its digest, or `None` where no pair
/// is a candidate.
pub open spec fn selected_latest(items: Seq<(String, String)>, allow_snapshots: bool) -> Option<
    (VersionModel, Seq<char>),
> {
    if exists|k: int| is_selected(items, k, allow_snapshots) {
        let k = choose|k: int| is_selected(items, k, allow_snapshots);
        Some((candidate_version(items, k), items[k].1@))
    } else {
        None
    }
}

/// What becomes of `definition` given the latest remote version: it is
/// replaced where that version ranks strictly above its locked tag (the
/// flag says so), kept otherwise, and an error where the locked tag is no
/// version.
pub open spec fn update_outcome(
    definition: ImageDefinition,
    latest: Option<(VersionModel, Seq<char>)>,
    r: Result<(ImageDefinition, bool), Error>,
) -> bool {
    match latest {
        None => r == Ok::<(ImageDefinition, bool), Error>((definition, false)),
        Some((v, dg)) => match parse_version(definition.tag@) {
            None => r == Err::<(ImageDefinition, bool), Error>(Error::InvalidVersionString),
            Some(current) => if version_lt(current, v) {
                &&& r matches Ok((d, updated))
                &&& updated
                &&& d.image == definition.image
                &&& d.platforms == definition.platforms
                &&& d.tag@ == format_version(v)
                &&& d.digest@ == dg
            } else {
                r == Ok::<(ImageDefinition, bool), Error>((definition, false))
            },
        },
    }
}

/// At most one pair of a listing is selected.
pub proof fn lemma_selected_unique(
    items: Seq<(String, String)>,
    k1: int,
    k2: int,
    allow_snapshots: bool,
)
    requires
        is_selected(items, k1, allow_snapshots),
        is_selected(items, k2, allow_snapshots),
    ensures
        k1 == k2,
{
    if k1 < k2 {
        assert(version_lt(candidate_version(items, k2), candidate_version(items, k1)));
        assert(!version_lt(candidate_version(items, k2), candidate_version(items, k1)));
    } else if k2 < k1 {
        assert(version_lt(candidate_version(items, k1), candidate_version(items, k2)));
        assert(!version_lt(candidate_version(items, k1), candidate_version(items, k2)));
    }
}

/// Picks the latest version among `(tag, digest)` pairs: tags that do not
/// parse are passed over, and snapshots too unless they are allowed.
pub fn latest_image(items: &Vec<(String, String)>, allow_snapshots: bool) -> (r: Option<
    (GitDescribeVersion, String),
>)
    ensures
        r is None <==> (forall|k: int| !is_candidate(items@, k, allow_snapshots)),
        match r {
            Some((v, dg)) => selected_latest(items@, allow_snapshots) == Some((v@, dg@)),
            None => selected_latest(items@, allow_snapshots) is None,
        },
{
    let mut best: Option<(GitDescribeVersion, String)> = None;
    let ghost mut best_k: int = 0;
    let mut k: usize = 0;
    while k < items.len()
        invariant
            k <= items@.len(),
            best is None ==> (forall|j: int| 0 <= j < k ==> !is_candidate(items@, j, allow_snapshots)),
            best matches Some((v, dg)) ==> {
                &&& 0 <= best_k < k
                &&& is_candidate(items@, best_k, allow_snapshots)
                &&& v@ == candidate_version(items@, best_k)
                &&& dg@ == items@[best_k].1@
                &&& forall|j: int|
                    0 <= j < k && is_candidate(items@, j, allow_snapshots) ==> !version_lt(
                        v@,
                        #[trigger] candidate_version(items@, j),
                    )
                &&& forall|j: int|
                    best_k < j < k && is_candidate(items@, j, allow_snapshots) ==> version_lt(
                        #[trigger] candidate_version(items@, j),
                        v@,
                    )
            },
        decreases items@.len() - k,
    {
        let (tag, digest) = &items[k];
        match GitDescribeVersion::from_str(tag.as_str()) {
            Ok(w) => {
                if allow_snapshots || w.is_release() {
                    let take = match &best {
                        None => true,
                        Some((v, _)) => !w.precedes(v),
                    };
                    if take {
                        best = Some((w, digest.clone()));
                        proof {
                            best_k = k as int;
                        }
                    }
                }
            },
            Err(_) => {},
        }
        k = k + 1;
    }
    proof {
        if best is Some {
            assert(is_selected(items@, best_k, allow_snapshots));
            let c = choose|c: int| is_selected(items@, c, allow_snapshots);
            lemma_selected_unique(items@, c, best_k, allow_snapshots);
        } else {
            if exists|c: int| is_selected(items@, c, allow_snapshots) {
                let c = choose|c: int| is_selected(items@, c, allow_snapshots);
                assert(!is_candidate(items@, c, allow_snapshots));
            }
        }
    }
    best
}

/// Replaces the tag and digest of `definition` by the latest remote ones
/// where those rank strictly above its locked tag. The flag says whether it
/// did.
pub fn apply_update(definition: ImageDefinition, latest: Option<(GitDescribeVersion, String)>) -> (r:
    Result<(ImageDefinition, bool), Error>)
    ensures
        update_outcome(
            definition,
            match latest {
                Some((v, dg)) => Some((v@, dg@)),
                None => None,
            },
            r,
        ),
{
    match latest {
        None => Ok((definition, false)),
        Some((v, dg)) => {
            let current = GitDescribeVersion::from_str(definition.tag.as_str())?;
            if current.precedes(&v) {
                let tag = v.to_string();
                Ok(
                    (
                        ImageDefinition {
                            image: definition.image,
                            tag,
                            digest: dg,
                            platforms: definition.platforms,
                        },
                        true,
                    ),
                )
            } else {
                Ok((definition, false))
            }
        },
    }
}

/// The whole decision for one entry, given the `(tag, digest)` pairs that
/// its repository lists.
pub fn update_definition(
    definition: ImageDefinition,
    items: &Vec<(String, String)>,
    allow_snapshots: bool,
) -> (r: Result<(ImageDefinition, bool), Error>)
    ensures
        update_outcome(definition, selected_latest(items@, allow_snapshots), r),
{
    let latest = latest_image(items, allow_snapshots);
    apply_update(definition, latest)
}

} // verus!
