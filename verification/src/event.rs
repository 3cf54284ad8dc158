//! The catalog record: a dated, located activity with descriptive text fields.

use vstd::prelude::*;
use vstd::string::StringExecFns;

verus! {

/// Largest legal latitude, in degrees scaled by `10_000_000` (90 degrees).
pub const LAT_LIMIT_E7: i64 = 900_000_000;

/// Largest legal longitude, in degrees scaled by `10_000_000` (180 degrees).
pub const LON_LIMIT_E7: i64 = 1_800_000_000;

/// A single immutable catalog record. Coordinates are fixed-point degrees
/// scaled by `10_000_000` (one unit is a tenth of a microdegree), so that the
/// record holds plain integer values; the great-circle arithmetic that reads
/// them is left to the caller.
#[derive(Debug, PartialEq, Eq)]
pub struct Event {
    pub id: String,
    pub title: String,
    pub description: String,
    pub city: String,
    /// Latitude in degrees scaled by `10_000_000`, in `[-LAT_LIMIT_E7, LAT_LIMIT_E7]`.
    pub lat_e7: i64,
    /// Longitude in degrees scaled by `10_000_000`, in `[-LON_LIMIT_E7, LON_LIMIT_E7]`.
    pub lon_e7: i64,
    pub date: String,
    pub tags: String,
    pub url: String,
}

impl Event {
    /// Both coordinates lie in their legal ranges.
    pub open spec fn valid(self) -> bool {
        &&& -LAT_LIMIT_E7 <= self.lat_e7 <= LAT_LIMIT_E7
        &&& -LON_LIMIT_E7 <= self.lon_e7 <= LON_LIMIT_E7
    }

    /// The text the free-text filter searches: title, tags, description and
    /// city, joined with a single space, in that order.
    pub open spec fn search_text(self) -> Seq<char> {
        self.title@ + seq![' '] + self.tags@ + seq![' '] + self.description@ + seq![' '] + self.city@
    }

    /// Builds a record with the given fields; the coordinates must be in range.
    #[allow(clippy::too_many_arguments)]
    pub fn new(
        id: String,
        title: String,
        description: String,
        city: String,
        lat_e7: i64,
        lon_e7: i64,
        date: String,
        tags: String,
        url: String,
    ) -> (e: Event)
        requires
            -LAT_LIMIT_E7 <= lat_e7 <= LAT_LIMIT_E7,
            -LON_LIMIT_E7 <= lon_e7 <= LON_LIMIT_E7,
        ensures
            e == (Event { id, title, description, city, lat_e7, lon_e7, date, tags, url }),
            e.valid(),
    {
        Event { id, title, description, city, lat_e7, lon_e7, date, tags, url }
    }

    /// The concatenation the text filter runs over, as an owned string.
    pub fn search_string(&self) -> (r: String)
        ensures
            r@ == self.search_text(),
    {
        let mut s = self.title.clone();
        s.append(" ");
        s.append(self.tags.as_str());
        s.append(" ");
        s.append(self.description.as_str());
        s.append(" ");
        s.append(self.city.as_str());
        proof {
            reveal_strlit(" ");
            assert(" "@ =~= seq![' ']);
            assert(s@ =~= self.search_text());
        }
        s
    }
}

impl Clone for Event {
    /// A field-by-field copy that equals the original.
    fn clone(&self) -> (res: Self)
        ensures
            res == *self,
    {
        let res = Event {
            id: self.id.clone(),
            title: self.title.clone(),
            description: self.description.clone(),
            city: self.city.clone(),
            lat_e7: self.lat_e7,
            lon_e7: self.lon_e7,
            date: self.date.clone(),
            tags: self.tags.clone(),
            url: self.url.clone(),
        };
        res
    }
}

} // verus!
