//! Loading a catalogue: from its snapshot where there is one, else from the
//! catalogue text, of which a snapshot is then made.

use crate::codec::{
    catalog_bytes, catalog_fits, decode_catalog, encode_catalog, lemma_round_trip, read_catalog,
};
use crate::error::Failure;
use crate::sim_data::{row_text, star_views, Star, StarView};
use vstd::prelude::*;

verus! {

/// The error of the `csv` crate, `csv::Error`. It is carried from the call
/// to where it is turned into a `Failure`; nothing is read in it.
#[verifier::external_type_specification]
#[verifier::external_body]
pub struct ExCsvError(csv::Error);

/// The records that the `csv` crate reads in a text, each a list of fields,
/// the first record of the text left out as its header; `None` where it
/// reports an error.
pub uninterp spec fn csv_records(text: Seq<u8>) -> Option<Seq<Seq<Seq<char>>>>;

/// The texts of the fields of some rows.
pub open spec fn rows_text(rows: Seq<Vec<String>>) -> Seq<Seq<Seq<char>>> {
    Seq::new(rows.len(), |i: int| row_text(rows[i]@))
}

/// Splits a text into records.
///
/// Calls `csv::Reader::from_bytes` and collects `Reader::records`, with the
/// reader as the crate makes it: comma as delimiter, the first record taken
/// as header and left out, records of unequal length an error. What comes
/// back depends on the text alone; the contract gives it its name.
#[verifier::external_body]
fn split_records(text: &[u8]) -> (r: Result<Vec<Vec<String>>, csv::Error>)
    ensures
        match r {
            Ok(rows) => csv_records(text@) == Some(rows_text(rows@)),
            Err(_) => csv_records(text@) is None,
        },
{
    csv::Reader::from_bytes(text).records().collect()
}

/// The stars that some rows write, in the order of the rows; none where a
/// row writes no star.
pub open spec fn stars_of_rows(rows: Seq<Seq<Seq<char>>>) -> Option<Seq<StarView>> {
    if forall|i: int| 0 <= i < rows.len() ==> (#[trigger] StarView::of_row(rows[i])) is Some {
        Some(Seq::new(rows.len(), |i: int| StarView::of_row(rows[i]).unwrap()))
    } else {
        None
    }
}

/// The catalogue that a text writes; none where the text cannot be split
/// into records or a record writes no star.
pub open spec fn catalog_of_text(text: Seq<u8>) -> Option<Seq<StarView>> {
    match csv_records(text) {
        Some(rows) => stars_of_rows(rows),
        None => None,
    }
}

/// Decodes the rows of a catalogue text. One row that writes no star
/// spoils the whole catalogue.
pub fn decode_rows(rows: &Vec<Vec<String>>) -> (r: Result<Vec<Star>, Failure>)
    ensures
        match r {
            Ok(stars) => stars_of_rows(rows_text(rows@)) == Some(star_views(stars@)),
            Err(e) => e == Failure::CatalogCorrupt && stars_of_rows(rows_text(rows@)) is None,
        },
{
    let ghost texts = rows_text(rows@);
    let mut stars: Vec<Star> = Vec::new();
    let mut i: usize = 0;
    while i < rows.len()
        invariant
            i <= rows@.len(),
            texts == rows_text(rows@),
            stars@.len() == i,
            forall|k: int|
                0 <= k < i ==> (#[trigger] StarView::of_row(texts[k])) == Some(stars@[k]@),
        decreases rows@.len() - i,
    {
        match Star::from_row(&rows[i]) {
            Some(star) => {
                stars.push(star);
            },
            None => {
                assert(StarView::of_row(texts[i as int]) is None);
                return Err(Failure::CatalogCorrupt);
            },
        }
        i = i + 1;
    }
    assert(Seq::new(texts.len(), |i: int| StarView::of_row(texts[i]).unwrap()) =~= star_views(
        stars@,
    ));
    Ok(stars)
}

/// Reads a catalogue text.
pub fn parse_catalog(text: &[u8]) -> (r: Result<Vec<Star>, Failure>)
    ensures
        match r {
            Ok(stars) => catalog_of_text(text@) == Some(star_views(stars@)),
            Err(e) => e == Failure::CatalogCorrupt && catalog_of_text(text@) is None,
        },
{
    match split_records(text) {
        Ok(rows) => decode_rows(&rows),
        Err(_) => Err(Failure::CatalogCorrupt),
    }
}

/// What follows from looking for the snapshot.
#[derive(Debug)]
pub enum CacheStep {
    /// The snapshot held this catalogue: the load is done.
    Loaded(Vec<Star>),
    /// There is no snapshot: the catalogue text is to be read.
    ReadSource,
    /// The load has failed.
    Failed(Failure),
}

/// What follows from looking for the catalogue text.
#[derive(Debug)]
pub enum SourceStep {
    /// The text held the catalogue `stars`: `snapshot` is to be written for
    /// the next load, and the load is done whether or not that succeeds.
    Loaded { stars: Vec<Star>, snapshot: Vec<u8> },
    /// The load has failed.
    Failed(Failure),
}

/// How a step of a load ends, or how the load goes on.
pub enum Outcome {
    /// The load is done, with this catalogue read in the snapshot.
    Loaded(Seq<StarView>),
    /// The load is done, with this catalogue read in the text; these bytes
    /// are to be written as its snapshot.
    LoadedAnew(Seq<StarView>, Seq<u8>),
    /// The catalogue text is to be read.
    ReadSource,
    /// The load has failed.
    Failed(Failure),
}

/// What follows from the snapshot, `None` where there is none. A snapshot
/// that holds no catalogue fails the load: the text is not read in its
/// place.
pub open spec fn cache_outcome(cache: Option<Seq<u8>>) -> Outcome {
    match cache {
        None => Outcome::ReadSource,
        Some(bytes) => match read_catalog(bytes) {
            Some(stars) => Outcome::Loaded(stars),
            None => Outcome::Failed(Failure::CatalogCorrupt),
        },
    }
}

/// What follows from the catalogue text, `None` where there is none. The
/// snapshot that goes with a catalogue is the one `catalog_bytes` gives.
pub open spec fn source_outcome(source: Option<Seq<u8>>) -> Outcome {
    match source {
        None => Outcome::Failed(Failure::SourceUnavailable),
        Some(text) => match catalog_of_text(text) {
            Some(stars) => Outcome::LoadedAnew(stars, catalog_bytes(stars)),
            None => Outcome::Failed(Failure::CatalogCorrupt),
        },
    }
}

/// The bytes that were found, if any.
pub open spec fn found(file: Option<&[u8]>) -> Option<Seq<u8>> {
    match file {
        Some(bytes) => Some(bytes@),
        None => None,
    }
}

impl CacheStep {
    /// The step, with the catalogue as what its stars hold.
    pub open spec fn outcome(self) -> Outcome {
        match self {
            CacheStep::Loaded(stars) => Outcome::Loaded(star_views(stars@)),
            CacheStep::ReadSource => Outcome::ReadSource,
            CacheStep::Failed(e) => Outcome::Failed(e),
        }
    }
}

impl SourceStep {
    /// The step, with the catalogue as what its stars hold and the snapshot
    /// as its bytes.
    pub open spec fn outcome(self) -> Outcome {
        match self {
            SourceStep::Loaded { stars, snapshot } => Outcome::LoadedAnew(
                star_views(stars@),
                snapshot@,
            ),
            SourceStep::Failed(e) => Outcome::Failed(e),
        }
    }
}

/// The first step of a load: `cache` is what was found where the snapshot
/// is kept, `None` where nothing was found.
pub fn on_cache(cache: Option<&[u8]>) -> (step: CacheStep)
    ensures
        step.outcome() == cache_outcome(found(cache)),
{
    match cache {
        None => CacheStep::ReadSource,
        Some(bytes) => match decode_catalog(bytes) {
            Some(stars) => CacheStep::Loaded(stars),
            None => CacheStep::Failed(Failure::CatalogCorrupt),
        },
    }
}

/// The second step of a load, taken where there is no snapshot: `source` is
/// what was found where the catalogue text is kept, `None` where nothing
/// was found.
pub fn on_source(source: Option<&[u8]>) -> (step: SourceStep)
    ensures
        step.outcome() == source_outcome(found(source)),
        step matches SourceStep::Loaded { stars, snapshot } ==> catalog_fits(star_views(stars@)),
{
    match source {
        None => SourceStep::Failed(Failure::SourceUnavailable),
        Some(text) => match parse_catalog(text) {
            Ok(stars) => {
                let snapshot = encode_catalog(&stars);
                SourceStep::Loaded { stars, snapshot }
            },
            Err(e) => SourceStep::Failed(e),
        },
    }
}

/// A load that finds the snapshot which an earlier load has written ends
/// with the catalogue of that earlier load, and does not go on to the
/// catalogue text.
pub proof fn lemma_snapshot_reloads(stars: Seq<StarView>)
    requires
        catalog_fits(stars),
    ensures
        cache_outcome(Some(catalog_bytes(stars))) == Outcome::Loaded(stars),
{
    lemma_round_trip(stars);
}

/// A load that finds a snapshot never goes on to the catalogue text,
/// whatever the snapshot holds; so it writes nothing.
pub proof fn lemma_snapshot_decides(bytes: Seq<u8>)
    ensures
        cache_outcome(Some(bytes)) !is ReadSource,
{
}

} // verus!
