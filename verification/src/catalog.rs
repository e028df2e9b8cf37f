//! The catalog of guessable entries.
//!
//! Upstream metadata arrives as a map from skin keys to partial records; a
//! record is usable when it carries both a portrait id and a display name.
//! Building the catalog keeps exactly the usable records, normalizes each
//! display name, and yields `SkinData` entries whose names are non-empty and
//! already in normal form — the invariant answer matching relies on.
use vstd::prelude::*;

use crate::normalize::normalise_name;
use crate::normalize::spec_normalise;

verus! {

/// The display block of an upstream skin record.
#[derive(Debug, Clone)]
pub struct SkinDisplay {
    pub model_name: Option<String>,
}

/// The view of a `SkinDisplay`: its optional name as a character sequence.
pub struct SkinDisplayView {
    pub model_name: Option<Seq<char>>,
}

impl View for SkinDisplay {
    type V = SkinDisplayView;

    open spec fn view(&self) -> SkinDisplayView {
        SkinDisplayView {
            model_name: match self.model_name {
                Some(n) => Some(n@),
                None => None,
            },
        }
    }
}

/// One upstream skin record, possibly missing the fields the game needs.
#[derive(Debug, Clone)]
pub struct PartialSkinData {
    pub portrait_id: Option<String>,
    pub display_skin: SkinDisplay,
}

/// The view of a `PartialSkinData`.
pub struct PartialSkinDataView {
    pub portrait_id: Option<Seq<char>>,
    pub display_skin: SkinDisplayView,
}

impl View for PartialSkinData {
    type V = PartialSkinDataView;

    open spec fn view(&self) -> PartialSkinDataView {
        PartialSkinDataView {
            portrait_id: match self.portrait_id {
                Some(i) => Some(i@),
                None => None,
            },
            display_skin: self.display_skin@,
        }
    }
}

/// The upstream payload: skin records keyed by their upstream identifier.
#[derive(Debug, Clone)]
pub struct SkinDataResponse {
    pub char_skins: Vec<(String, PartialSkinData)>,
}

impl View for SkinDataResponse {
    type V = Seq<(Seq<char>, PartialSkinDataView)>;

    open spec fn view(&self) -> Seq<(Seq<char>, PartialSkinDataView)> {
        self.char_skins@.map_values(|p: (String, PartialSkinData)| (p.0@, p.1@))
    }
}

/// One guessable catalog entry: the id locating the source artwork and the
/// canonical (normalized) display name that answers are compared against.
#[derive(Debug, Clone)]
pub struct SkinData {
    pub skin_id: String,
    pub model_name: String,
}

/// The view of a `SkinData`.
#[verifier::ext_equal]
pub struct SkinDataView {
    pub skin_id: Seq<char>,
    pub model_name: Seq<char>,
}

impl View for SkinData {
    type V = SkinDataView;

    open spec fn view(&self) -> SkinDataView {
        SkinDataView { skin_id: self.skin_id@, model_name: self.model_name@ }
    }
}

/// The catalog entry a usable upstream record gives rise to, if any: both
/// fields must be present and the name must survive normalization.
pub open spec fn spec_entry_of(p: PartialSkinDataView) -> Option<SkinDataView> {
    match (p.portrait_id, p.display_skin.model_name) {
        (Some(id), Some(name)) => if spec_normalise(name).len() > 0 {
            Some(SkinDataView { skin_id: id, model_name: spec_normalise(name) })
        } else {
            None
        },
        _ => None,
    }
}

/// A name in normal form: what normalization yields for some input.
pub open spec fn is_normal_form(n: Seq<char>) -> bool {
    exists|raw: Seq<char>| n == spec_normalise(raw)
}

/// A well-formed catalog entry: the name is non-empty and in normal form.
pub open spec fn wf_entry(e: SkinDataView) -> bool {
    &&& e.model_name.len() > 0
    &&& is_normal_form(e.model_name)
}

/// A well-formed catalog: every entry is well-formed.
pub open spec fn wf_catalog(c: Seq<SkinDataView>) -> bool {
    forall|i: int| 0 <= i < c.len() ==> wf_entry(#[trigger] c[i])
}

impl SkinDataResponse {
    /// Builds the catalog from the upstream payload: keeps exactly the
    /// records that carry both fields and a name that survives
    /// normalization, in payload order, normalizing each name.  The result
    /// is well-formed.
    pub fn build_catalog(self) -> (r: Vec<SkinData>)
        ensures
            r@.map_values(|e: SkinData| e@) == self@.map_values(
                |p: (Seq<char>, PartialSkinDataView)| p.1,
            ).filter_map(|p: PartialSkinDataView| spec_entry_of(p)),
            wf_catalog(r@.map_values(|e: SkinData| e@)),
    {
        let mut r: Vec<SkinData> = Vec::new();
        let mut i: usize = 0;
        let n = self.char_skins.len();
        proof {
            let f = |p: PartialSkinDataView| spec_entry_of(p);
            assert(self@.map_values(|p: (Seq<char>, PartialSkinDataView)| p.1).take(0)
                =~= Seq::<PartialSkinDataView>::empty());
            assert(Seq::<PartialSkinDataView>::empty().filter_map(f)
                =~= Seq::<SkinDataView>::empty());
            assert(r@.map_values(|e: SkinData| e@) =~= Seq::<SkinDataView>::empty());
        }
        while i < n
            invariant
                i <= n,
                n == self.char_skins@.len(),
                r@.map_values(|e: SkinData| e@) == self@.map_values(
                    |p: (Seq<char>, PartialSkinDataView)| p.1,
                ).take(i as int).filter_map(|p: PartialSkinDataView| spec_entry_of(p)),
                wf_catalog(r@.map_values(|e: SkinData| e@)),
            decreases n - i,
        {
            let ghost pviews = self@.map_values(|p: (Seq<char>, PartialSkinDataView)| p.1);
            let ghost f = |p: PartialSkinDataView| spec_entry_of(p);
            let ghost before = r@.map_values(|e: SkinData| e@);
            proof {
                pviews.lemma_filter_map_take_succ(f, i as int);
                assert(pviews[i as int] == self.char_skins@[i as int].1@);
            }
            let entry = &self.char_skins[i];
            let mut added: bool = false;
            if let Some(id) = &entry.1.portrait_id {
                if let Some(name) = &entry.1.display_skin.model_name {
                    let canonical = normalise_name(name.as_str());
                    if canonical.as_str().unicode_len() > 0 {
                        proof {
                            assert(canonical@ == spec_normalise(name@));
                            assert(is_normal_form(canonical@));
                        }
                        let e = SkinData { skin_id: id.clone(), model_name: canonical };
                        proof {
                            assert(f(pviews[i as int]) == Some(e@));
                            assert(wf_entry(e@));
                        }
                        r.push(e);
                        added = true;
                        proof {
                            assert(r@.map_values(|e: SkinData| e@) =~= before.push(
                                r@.map_values(|e: SkinData| e@)[before.len() as int],
                            ));
                        }
                    } else {
                        proof {
                            assert(f(pviews[i as int]) is None);
                        }
                    }
                }
            }
            proof {
                if !added {
                    assert(f(pviews[i as int]) is None);
                    assert(r@.map_values(|e: SkinData| e@) == before);
                }
                assert(r@.map_values(|e: SkinData| e@) =~= pviews.take(i as int + 1)
                    .filter_map(f));
                assert(wf_catalog(r@.map_values(|e: SkinData| e@)));
            }
            i = i + 1;
        }
        proof {
            let pviews = self@.map_values(|p: (Seq<char>, PartialSkinDataView)| p.1);
            assert(pviews.take(n as int) =~= pviews);
        }
        r
    }
}

} // verus!
