use vstd::prelude::*;

verus! {

/// A histogram that records nothing.
#[derive(Debug, Clone, Copy, PartialEq, Eq, Structural)]
pub struct NoHistogram;

/// `h` is a histogram that the metrics backend `create` may hand out for the name
/// `name` measured in `unit`.
pub open spec fn created_as<H, F: Fn(String, Option<String>) -> H>(
    create: F,
    h: H,
    name: Seq<char>,
    unit: Seq<char>,
) -> bool {
    exists|n: String, u: String|
        n@ == name && u@ == unit && #[trigger] call_ensures(create, (n, Some(u)), h)
}

/// Ask the backend for a histogram measured in seconds.
fn seconds_histogram<H, F: Fn(String, Option<String>) -> H>(create: &F, name: &str) -> (r: H)
    requires
        forall|n: String, u: Option<String>| call_requires(*create, (n, u)),
    ensures
        created_as(*create, r, name@, "seconds"@),
{
    let n = name.to_string();
    let u = String::from_str("seconds");
    let ghost gn = n;
    let ghost gu = u;
    let h = create(n, Some(u));
    proof {
        assert(call_ensures(*create, (gn, Some(gu)), h));
    }
    h
}

/// Storage metrics
pub struct StorageMetricsValue<H> {
    /// Time taken by the storage to append a VID
    pub append_vid_duration: H,
    /// Time taken by the storage to append DA
    pub append_da_duration: H,
    /// Time taken by the storage to append Quorum Proposal
    pub append_quorum_duration: H,
}

impl<H> StorageMetricsValue<H> {
    /// Create the storage histograms with the metrics backend `create` (which makes a
    /// histogram from a name and an optional unit): each is named after what it times
    /// and measured in seconds.
    pub fn new<F: Fn(String, Option<String>) -> H>(create: F) -> (r: Self)
        requires
            forall|n: String, u: Option<String>| call_requires(create, (n, u)),
        ensures
            created_as(create, r.append_vid_duration, "append_vid_duration"@, "seconds"@),
            created_as(create, r.append_da_duration, "append_da_duration"@, "seconds"@),
            created_as(create, r.append_quorum_duration, "append_quorum_duration"@, "seconds"@),
    {
        Self {
            append_vid_duration: seconds_histogram(&create, "append_vid_duration"),
            append_da_duration: seconds_histogram(&create, "append_da_duration"),
            append_quorum_duration: seconds_histogram(&create, "append_quorum_duration"),
        }
    }
}

impl Default for StorageMetricsValue<NoHistogram> {
    /// Storage metrics that record nothing.
    fn default() -> (r: Self)
        ensures
            r.append_vid_duration == NoHistogram,
            r.append_da_duration == NoHistogram,
            r.append_quorum_duration == NoHistogram,
    {
        Self::new(|_name: String, _unit: Option<String>| NoHistogram)
    }
}

/// Metrics for the persistence layer
pub struct PersistenceMetricsValue<H> {
    /// Time taken by the underlying storage to execute the command that appends a VID
    pub internal_append_vid_duration: H,
    /// Time taken by the underlying storage to execute the command that appends VID 2
    pub internal_append_vid2_duration: H,
    /// Time taken by the underlying storage to execute the command that appends DA
    pub internal_append_da_duration: H,
    /// Time taken by the underlying storage to execute the command that appends DA 2
    pub internal_append_da2_duration: H,
    /// Time taken by the underlying storage to execute the command that appends Quorum Proposal 2
    pub internal_append_quorum2_duration: H,
}

impl<H> PersistenceMetricsValue<H> {
    /// Create the persistence histograms with the metrics backend `create`: each is named
    /// after the storage command it times and measured in seconds.
    pub fn new<F: Fn(String, Option<String>) -> H>(create: F) -> (r: Self)
        requires
            forall|n: String, u: Option<String>| call_requires(create, (n, u)),
        ensures
            created_as(
                create,
                r.internal_append_vid_duration,
                "internal_append_vid_duration"@,
                "seconds"@,
            ),
            created_as(
                create,
                r.internal_append_vid2_duration,
                "internal_append_vid2_duration"@,
                "seconds"@,
            ),
            created_as(
                create,
                r.internal_append_da_duration,
                "internal_append_da_duration"@,
                "seconds"@,
            ),
            created_as(
                create,
                r.internal_append_da2_duration,
                "internal_append_da2_duration"@,
                "seconds"@,
            ),
            created_as(
                create,
                r.internal_append_quorum2_duration,
                "internal_append_quorum2_duration"@,
                "seconds"@,
            ),
    {
        Self {
            internal_append_vid_duration: seconds_histogram(&create, "internal_append_vid_duration"),
            internal_append_vid2_duration: seconds_histogram(
                &create,
                "internal_append_vid2_duration",
            ),
            internal_append_da_duration: seconds_histogram(&create, "internal_append_da_duration"),
            internal_append_da2_duration: seconds_histogram(&create, "internal_append_da2_duration"),
            internal_append_quorum2_duration: seconds_histogram(
                &create,
                "internal_append_quorum2_duration",
            ),
        }
    }
}

impl Default for PersistenceMetricsValue<NoHistogram> {
    /// Persistence metrics that record nothing.
    fn default() -> (r: Self)
        ensures
            r.internal_append_vid_duration == NoHistogram,
            r.internal_append_vid2_duration == NoHistogram,
            r.internal_append_da_duration == NoHistogram,
            r.internal_append_da2_duration == NoHistogram,
            r.internal_append_quorum2_duration == NoHistogram,
    {
        Self::new(|_name: String, _unit: Option<String>| NoHistogram)
    }
}

} // verus!
