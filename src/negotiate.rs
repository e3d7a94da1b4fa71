use vstd::prelude::*;
use vstd::string::StringExecFns;

use crate::catalog::CatalogSet;
use crate::text::{preference_tags, preferences, views};

verus! {

/// The locale chosen for a request: its tag and the catalog registered under it.
pub struct I18n<'a, C> {
    pub lang: String,
    pub catalog: &'a C,
}

/// The tag that negotiation settled on has no registered catalog. This can only be
/// the fallback tag.
pub struct MissingTranslationsError(pub String);

/// The shared catalog set could not be obtained by the host.
pub struct MissingStateError;

impl MissingTranslationsError {
    /// The tag that has no catalog.
    pub fn tag(&self) -> (r: &String)
        ensures
            r@ == self.0@,
    {
        &self.0
    }

    /// A line that names the missing tag.
    pub fn message(&self) -> (r: String)
        ensures
            r@ == "Could not find translations for "@ + self.0@,
    {
        "Could not find translations for ".to_owned().concat(self.0.as_str())
    }

    /// A short description of the failure.
    pub fn description(&self) -> (r: &'static str)
        ensures
            r@ == "Could not find translations"@,
    {
        "Could not find translations"
    }
}

impl MissingStateError {
    /// A line that describes the failure.
    pub fn message(&self) -> (r: String)
        ensures
            r@ == "Could not retrieve state"@,
    {
        "Could not retrieve state".to_owned()
    }

    /// A short description of the failure.
    pub fn description(&self) -> (r: &'static str)
        ensures
            r@ == "Could not retrieve state"@,
    {
        "Could not retrieve state"
    }
}

/// The first non-empty preference, in the order given, that `tags` holds.
pub open spec fn first_supported(prefs: Seq<Seq<char>>, tags: Seq<Seq<char>>) -> Option<
    Seq<char>,
>
    decreases prefs.len(),
{
    if prefs.len() == 0 {
        None
    } else if prefs[0].len() > 0 && tags.contains(prefs[0]) {
        Some(prefs[0])
    } else {
        first_supported(prefs.drop_first(), tags)
    }
}

/// The tag that negotiation settles on: the first supported preference of `raw`, or
/// the fallback `default` where there is none or no header at all.
pub open spec fn selected_tag(
    raw: Option<Seq<char>>,
    tags: Seq<Seq<char>>,
    default: Seq<char>,
) -> Seq<char> {
    match raw {
        None => default,
        Some(r) => match first_supported(preferences(r), tags) {
            Some(t) => t,
            None => default,
        },
    }
}

pub open spec fn raw_view(raw: Option<&str>) -> Option<Seq<char>> {
    match raw {
        Some(s) => Some(s@),
        None => None,
    }
}

/// What negotiation yields over `catalogs` for the header `raw`: the selected tag
/// with its catalog, or the selected tag alone where it has no catalog.
pub open spec fn negotiation<C>(catalogs: CatalogSet<C>, raw: Option<Seq<char>>) -> Result<
    (Seq<char>, C),
    Seq<char>,
> {
    let tag = selected_tag(raw, catalogs.tags(), catalogs.default());
    if catalogs.tags().contains(tag) {
        Ok((tag, catalogs.catalog_at(catalogs.tags().index_of(tag))))
    } else {
        Err(tag)
    }
}

/// The content of a negotiation result.
pub open spec fn outcome<'a, C>(r: Result<I18n<'a, C>, MissingTranslationsError>) -> Result<
    (Seq<char>, C),
    Seq<char>,
> {
    match r {
        Ok(i) => Ok((i.lang@, *i.catalog)),
        Err(e) => Err(e.0@),
    }
}

/// The tag that negotiation settles on for the header `raw_preference`.
pub fn select_tag<C>(catalogs: &CatalogSet<C>, raw_preference: Option<&str>) -> (r: String)
    ensures
        r@ == selected_tag(raw_view(raw_preference), catalogs.tags(), catalogs.default()),
{
    match raw_preference {
        None => catalogs.default_tag().clone(),
        Some(text) => {
            let prefs = preference_tags(text);
            let ghost all = views(prefs@);
            let mut i: usize = 0;
            proof {
                assert(all.skip(0) =~= all);
            }
            while i < prefs.len()
                invariant
                    i <= prefs.len(),
                    all == views(prefs@),
                    all == preferences(text@),
                    raw_view(raw_preference) == Some(text@),
                    first_supported(all, catalogs.tags()) == first_supported(
                        all.skip(i as int),
                        catalogs.tags(),
                    ),
                decreases prefs.len() - i,
            {
                proof {
                    assert(all.skip(i as int).drop_first() =~= all.skip(i + 1));
                    assert(all.skip(i as int)[0] == prefs@[i as int]@);
                }
                if prefs[i].len() > 0 {
                    match catalogs.position(&prefs[i]) {
                        Some(k) => {
                            proof {
                                assert(catalogs.tags()[k as int] == all.skip(i as int)[0]);
                                assert(catalogs.tags().contains(all.skip(i as int)[0]));
                            }
                            return catalogs.tag_at(k).clone();
                        },
                        None => {},
                    }
                }
                i += 1;
            }
            catalogs.default_tag().clone()
        },
    }
}

/// Chooses the locale for a request from the client's ranked preference header
/// (`None` where the client sent none) and the supported catalogs.
pub fn negotiate<'a, C>(catalogs: &'a CatalogSet<C>, raw_preference: Option<&str>) -> (r: Result<
    I18n<'a, C>,
    MissingTranslationsError,
>)
    requires
        catalogs.wf(),
    ensures
        outcome(r) == negotiation(*catalogs, raw_view(raw_preference)),
        r is Err <==> !catalogs.tags().contains(
            selected_tag(raw_view(raw_preference), catalogs.tags(), catalogs.default()),
        ),
{
    let tag = select_tag(catalogs, raw_preference);
    match catalogs.lookup(tag.as_str()) {
        Some(c) => {
            proof {
                let tags = catalogs.tags();
                let i = choose|i: int| 0 <= i < tags.len() && tags[i] == tag@ && *c == catalogs.catalog_at(i);
                assert(tags.contains(tag@));
                assert(tags.index_of(tag@) == i);
            }
            Ok(I18n { lang: tag, catalog: c })
        },
        None => Err(MissingTranslationsError(tag)),
    }
}

/// Negotiation is deterministic: over the same catalogs and header, any two results
/// carry the same tag and catalog, or fail on the same tag.
pub proof fn lemma_negotiation_deterministic<'a, C>(
    catalogs: &'a CatalogSet<C>,
    raw_preference: Option<&str>,
    r1: Result<I18n<'a, C>, MissingTranslationsError>,
    r2: Result<I18n<'a, C>, MissingTranslationsError>,
)
    requires
        catalogs.wf(),
        outcome(r1) == negotiation(*catalogs, raw_view(raw_preference)),
        outcome(r2) == negotiation(*catalogs, raw_view(raw_preference)),
    ensures
        outcome(r1) == outcome(r2),
{
}

} // verus!
