//! The response shapes of the web routes, as the API defines them.

use vstd::prelude::*;

verus! {

/// The years of the videos.
#[derive(Debug)]
pub struct YearsVideos {
    pub years: Vec<String>,
}

/// The months of the videos.
#[derive(Debug)]
pub struct MonthsVideos {
    pub months: Vec<String>,
}

/// The days of the videos.
#[derive(Debug)]
pub struct DaysVideos {
    pub days: Vec<String>,
}

/// The video objects' names.
#[derive(Debug)]
pub struct VideoObjects {
    pub objects: Vec<String>,
}

} // verus!
