//! Catalog entries and the manifest that holds them.
use vstd::prelude::*;

verus! {

/// One catalog record. Every field is optional: the catalog omits fields
/// freely from entry to entry.
#[derive(Clone, Debug, Default)]
pub struct ManifestData {
    pub _as: Option<String>,
    pub am: Option<String>,
    pub dhd: Option<String>,
    pub dsd: Option<String>,
    pub e: Option<String>,
    pub fs: Option<String>,
    pub s: Option<String>,
    pub wcl0: Option<String>,
    pub wcl1: Option<String>,
    pub wcl2: Option<String>,
    pub wcs0: Option<String>,
    pub wcs1: Option<String>,
    pub wcs2: Option<String>,
    pub wfs: Option<String>,
    pub wft: Option<String>,
}

impl ManifestData {
    /// An entry is a wallpaper when it carries at least one full-image URL.
    pub open spec fn spec_is_wallpaper(&self) -> bool {
        self.dhd is Some || self.dsd is Some
    }

    /// The URL a wallpaper is downloaded from: the high-definition one when
    /// present, else the standard-definition one.
    pub open spec fn spec_wallpaper_url(&self) -> Option<Seq<char>> {
        match self.dhd {
            Some(u) => Some(u@),
            None => match self.dsd {
                Some(u) => Some(u@),
                None => None,
            },
        }
    }

    pub fn is_wallpaper(&self) -> (r: bool)
        ensures
            r == self.spec_is_wallpaper(),
    {
        self.dhd.is_some() || self.dsd.is_some()
    }

    pub fn wallpaper_url(&self) -> (r: Option<&str>)
        ensures
            r is Some == self.spec_is_wallpaper(),
            r is Some ==> self.spec_wallpaper_url() == Some(r.unwrap()@),
            r is None ==> self.spec_wallpaper_url() is None,
    {
        match &self.dhd {
            Some(u) => Some(u.as_str()),
            None => match &self.dsd {
                Some(u) => Some(u.as_str()),
                None => None,
            },
        }
    }
}

/// The wallpaper entries of `entries`, in the order they appear there.
pub open spec fn wallpapers_of(entries: Seq<(String, ManifestData)>) -> Seq<ManifestData>
    decreases entries.len(),
{
    if entries.len() == 0 {
        Seq::empty()
    } else {
        let rest = wallpapers_of(entries.drop_last());
        let last = entries.last().1;
        if last.spec_is_wallpaper() {
            rest.push(last)
        } else {
            rest
        }
    }
}

/// The catalog: a version tag and the entries under their catalog ids.
/// The ids are unique; the order of the entries carries no meaning.
#[derive(Debug)]
pub struct Manifest {
    pub version: u8,
    pub data: Vec<(String, ManifestData)>,
}

impl Manifest {
    /// The URL the manifest of `domain` is fetched from: the domain followed
    /// by the versioned API path.
    pub fn endpoint(domain: &str) -> (r: String)
        ensures
            r@ == domain@ + "/panels-api/data/20240916/media-1a-i-p~s"@,
    {
        let r = String::from_str(domain);
        r.concat("/panels-api/data/20240916/media-1a-i-p~s")
    }

    /// The entries that are wallpapers, in the order of `data`.
    pub fn wallpapers(&self) -> (r: Vec<&ManifestData>)
        ensures
            r@.map_values(|e: &ManifestData| *e) == wallpapers_of(self.data@),
    {
        let mut r: Vec<&ManifestData> = Vec::new();
        let mut i: usize = 0;
        while i < self.data.len()
            invariant
                i <= self.data@.len(),
                r@.map_values(|e: &ManifestData| *e) == wallpapers_of(
                    self.data@.subrange(0, i as int),
                ),
            decreases self.data@.len() - i,
        {
            let entry = &self.data[i].1;
            proof {
                let next = self.data@.subrange(0, i + 1);
                assert(next.drop_last() =~= self.data@.subrange(0, i as int));
            }
            if entry.is_wallpaper() {
                let ghost before = r@;
                r.push(entry);
                assert(r@.map_values(|e: &ManifestData| *e) =~= before.map_values(
                    |e: &ManifestData| *e,
                ).push(*entry));
            }
            i = i + 1;
        }
        assert(self.data@.subrange(0, self.data@.len() as int) =~= self.data@);
        r
    }
}

} // verus!
