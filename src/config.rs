//! The run's configuration, and the plan that turns a manifest into lanes.
use crate::distribute::{distribute, lane_items, lemma_lane_items_map};
use crate::manifest::{wallpapers_of, Manifest, ManifestData};
use vstd::prelude::*;

verus! {

/// Where the manifest comes from, where the images go, and how many lanes
/// download them.
pub struct App {
    panels_domain: String,
    download_directory: String,
    workers: usize,
}

/// The mathematical value of an `App`.
pub struct AppView {
    pub panels_domain: Seq<char>,
    pub download_directory: Seq<char>,
    pub workers: nat,
}

impl View for App {
    type V = AppView;

    closed spec fn view(&self) -> AppView {
        AppView {
            panels_domain: self.panels_domain@,
            download_directory: self.download_directory@,
            workers: self.workers as nat,
        }
    }
}

impl App {
    #[verifier::type_invariant]
    spec fn inv(&self) -> bool {
        self.workers >= 1
    }

    /// A configuration with at least one lane: a worker count of zero is
    /// raised to one.
    pub fn new(panels_domain: &str, download_directory: &str, workers: usize) -> (r: App)
        ensures
            r@.panels_domain == panels_domain@,
            r@.download_directory == download_directory@,
            r@.workers == if workers >= 1 {
                workers as nat
            } else {
                1
            },
    {
        let workers = if workers >= 1 {
            workers
        } else {
            1
        };
        App {
            panels_domain: String::from_str(panels_domain),
            download_directory: String::from_str(download_directory),
            workers,
        }
    }

    pub fn panels_domain(&self) -> (r: &str)
        ensures
            r@ == self@.panels_domain,
    {
        self.panels_domain.as_str()
    }

    pub fn download_directory(&self) -> (r: &str)
        ensures
            r@ == self@.download_directory,
    {
        self.download_directory.as_str()
    }

    /// The number of lanes; never zero.
    pub fn workers(&self) -> (r: usize)
        ensures
            r as nat == self@.workers,
            r >= 1,
    {
        proof {
            use_type_invariant(self);
        }
        self.workers
    }

    /// The URL the manifest is fetched from.
    pub fn manifest_url(&self) -> (r: String)
        ensures
            r@ == self@.panels_domain + "/panels-api/data/20240916/media-1a-i-p~s"@,
    {
        Manifest::endpoint(self.panels_domain.as_str())
    }

    /// The work of each lane: the wallpapers of `manifest`, in the order of
    /// its entries, dealt round-robin over the lanes.
    pub fn lanes<'a>(&self, manifest: &'a Manifest) -> (r: Vec<Vec<&'a ManifestData>>)
        ensures
            r@.len() == self@.workers,
            forall|l: int|
                0 <= l < r@.len() ==> (#[trigger] r@[l])@.map_values(|e: &ManifestData| *e)
                    == lane_items(wallpapers_of(manifest.data@), self@.workers, l as nat),
    {
        let wallpapers = manifest.wallpapers();
        let workers = self.workers();
        let lanes = distribute(wallpapers, workers);
        proof {
            let ws = wallpapers@;
            let f = |e: &ManifestData| *e;
            assert forall|l: int| 0 <= l < lanes@.len() implies (#[trigger] lanes@[l])@.map_values(f)
                == lane_items(wallpapers_of(manifest.data@), self@.workers, l as nat) by {
                lemma_lane_items_map(ws, f, self@.workers, l as nat);
            }
        }
        lanes
    }
}

} // verus!
