//! Resource resolution: choosing a strategy from a parsed query, and the
//! nearest-version-at-or-before-a-timestamp discipline over a metadata
//! chain. Readers always see the version that was current at the requested
//! instant, never one published after it.
use vstd::prelude::*;

use crate::config::ContractNetworkConfig;
use crate::errors::DlrError;
use crate::query::{QueryParametersView, ResourceQueryParameters};
use crate::resource::ResourceVersionMetadataChainNode;
use crate::utils::get_epoch_secs;

verus! {

/// The resolution strategy a query selects: exactly one, based on which
/// parameters are present.
#[derive(Debug, Clone, PartialEq, Eq)]
pub enum ResolutionPath {
    /// Direct lookup by the chain-assigned resource identifier.
    ById { resource_id: String },
    /// Nearest version of the `(name, type)` chain at or before `epoch`.
    ByNameTypeAtTime { resource_name: String, resource_type: String, epoch: i64 },
}

/// The mathematical shape of a resolution strategy.
#[verifier::ext_equal]
pub ghost enum ResolutionPathView {
    ById { resource_id: Seq<char> },
    ByNameTypeAtTime { resource_name: Seq<char>, resource_type: Seq<char>, epoch: int },
}

impl View for ResolutionPath {
    type V = ResolutionPathView;

    open spec fn view(&self) -> ResolutionPathView {
        match self {
            ResolutionPath::ById { resource_id } => ResolutionPathView::ById {
                resource_id: resource_id@,
            },
            ResolutionPath::ByNameTypeAtTime {
                resource_name,
                resource_type,
                epoch,
            } => ResolutionPathView::ByNameTypeAtTime {
                resource_name: resource_name@,
                resource_type: resource_type@,
                epoch: *epoch as int,
            },
        }
    }
}

/// The strategy a parameter set selects, resolving "now" to `now_epoch`:
/// a present `resourceId` wins; the off-ledger-index parameters are
/// unsupported; then both a name and a type are required; the version time
/// defaults to now.
pub open spec fn spec_plan_resolution(p: QueryParametersView, now_epoch: int) -> Result<
    ResolutionPathView,
    DlrError,
> {
    if p.resource_id is Some {
        Ok(ResolutionPathView::ById { resource_id: p.resource_id.unwrap() })
    } else if p.all_resource_versions is Some || p.latest_resource_version is Some
        || p.linked_resource is Some || p.resource_metadata is Some
        || p.resource_version_id is Some {
        Err(DlrError::Unsupported)
    } else if p.resource_name is Some && p.resource_type is Some {
        let epoch = if p.version_time is Some {
            p.version_time.unwrap()
        } else {
            now_epoch
        };
        Ok(
            ResolutionPathView::ByNameTypeAtTime {
                resource_name: p.resource_name.unwrap(),
                resource_type: p.resource_type.unwrap(),
                epoch: epoch,
            },
        )
    } else {
        Err(DlrError::TooVague)
    }
}

/// Selects the resolution strategy of a parameter set, with `now_epoch`
/// standing in for a missing `versionTime`.
pub fn plan_resolution(params: ResourceQueryParameters, now_epoch: i64) -> (r: Result<
    ResolutionPath,
    DlrError,
>)
    ensures
        match r {
            Ok(path) => spec_plan_resolution(params@, now_epoch as int) == Ok::<
                ResolutionPathView,
                DlrError,
            >(path@),
            Err(e) => spec_plan_resolution(params@, now_epoch as int) == Err::<
                ResolutionPathView,
                DlrError,
            >(e),
        },
{
    if let Some(resource_id) = params.resource_id {
        return Ok(ResolutionPath::ById { resource_id });
    }
    if params.all_resource_versions.is_some() || params.latest_resource_version.is_some()
        || params.linked_resource.is_some() || params.resource_metadata.is_some()
        || params.resource_version_id.is_some() {
        return Err(DlrError::Unsupported);
    }
    let epoch: i64 = match params.version_time {
        Some(t) => t.timestamp(),
        None => now_epoch,
    };
    match (params.resource_name, params.resource_type) {
        (Some(resource_name), Some(resource_type)) => Ok(
            ResolutionPath::ByNameTypeAtTime { resource_name, resource_type, epoch },
        ),
        _ => Err(DlrError::TooVague),
    }
}

/// Selects the resolution strategy of a parameter set, reading the clock
/// for a missing `versionTime`. For every outcome of the clock, the result
/// is the plan of these parameters at some epoch; parameters that carry
/// their own `versionTime`, a `resourceId`, an unsupported filter or too
/// few filters do not depend on it.
pub fn plan_resolution_now(params: ResourceQueryParameters) -> (r: Result<
    ResolutionPath,
    DlrError,
>)
    ensures
        exists|now: int|
            #[trigger] spec_plan_resolution(params@, now) == (match r {
                Ok(path) => Ok::<ResolutionPathView, DlrError>(path@),
                Err(e) => Err::<ResolutionPathView, DlrError>(e),
            }),
{
    let ghost params_view = params@;
    let now_u = get_epoch_secs();
    let now: i64 = if now_u > i64::MAX as u64 {
        i64::MAX
    } else {
        now_u as i64
    };
    let r = plan_resolution(params, now);
    proof {
        assert(spec_plan_resolution(params_view, now as int) == (match r {
            Ok(path) => Ok::<ResolutionPathView, DlrError>(path@),
            Err(e) => Err::<ResolutionPathView, DlrError>(e),
        }));
    }
    r
}

/// A query whose parameters ask for an off-ledger-index feature, with no
/// direct resource identifier, is rejected as unsupported before any ledger
/// work, whatever the clock reads.
pub proof fn lemma_unsupported_params_rejected(p: QueryParametersView, now_epoch: int)
    requires
        p.resource_id is None,
        p.all_resource_versions is Some || p.latest_resource_version is Some
            || p.linked_resource is Some || p.resource_metadata is Some
            || p.resource_version_id is Some,
    ensures
        spec_plan_resolution(p, now_epoch) == Err::<ResolutionPathView, DlrError>(
            DlrError::Unsupported,
        ),
{
}

/// Timestamps in non-decreasing order, as a metadata chain's `created`
/// values are (chain order is publish order).
pub open spec fn sorted_non_decreasing(ts: Seq<u64>) -> bool {
    forall|i: int, j: int| 0 <= i < j < ts.len() ==> ts[i] <= ts[j]
}

/// Binary search for the nearest version at or before an epoch: the last
/// index whose timestamp is at or before `epoch`, or `None` where the
/// chain is empty or wholly after `epoch` (the target predates the first
/// version).
pub fn select_version_index(timestamps: &Vec<u64>, epoch: u64) -> (r: Option<usize>)
    requires
        sorted_non_decreasing(timestamps@),
    ensures
        match r {
            Some(i) => i < timestamps@.len() && timestamps@[i as int] <= epoch && (i + 1
                == timestamps@.len() || timestamps@[i as int + 1] > epoch),
            None => forall|i: int| 0 <= i < timestamps@.len() ==> timestamps@[i] > epoch,
        },
{
    let mut lo: usize = 0;
    let mut hi: usize = timestamps.len();
    while lo < hi
        invariant
            lo <= hi <= timestamps@.len(),
            sorted_non_decreasing(timestamps@),
            forall|i: int| 0 <= i < lo ==> timestamps@[i] <= epoch,
            forall|i: int| hi <= i < timestamps@.len() ==> timestamps@[i] > epoch,
        decreases hi - lo,
    {
        let mid = lo + (hi - lo) / 2;
        if timestamps[mid] <= epoch {
            proof {
                assert forall|i: int| 0 <= i < mid + 1 implies timestamps@[i] <= epoch by {
                    if i < mid {
                        assert(timestamps@[i] <= timestamps@[mid as int]);
                    }
                }
            }
            lo = mid + 1;
        } else {
            proof {
                assert forall|i: int| mid <= i < timestamps@.len() implies timestamps@[i]
                    > epoch by {
                    if i > mid {
                        assert(timestamps@[mid as int] <= timestamps@[i]);
                    }
                }
            }
            hi = mid;
        }
    }
    if lo == 0 {
        None
    } else {
        Some(lo - 1)
    }
}

/// The `created` timestamps of a metadata chain, in chain order.
pub open spec fn chain_timestamps(chain: Seq<ResourceVersionMetadataChainNode>) -> Seq<u64> {
    chain.map_values(|n: ResourceVersionMetadataChainNode| n.created_epoch)
}

/// Selects from a metadata chain the node that was current at `epoch`: the
/// last node created at or before it. `None` means no version existed yet
/// at that time (or the chain is empty).
pub fn select_chain_node_at_epoch(
    chain: &Vec<ResourceVersionMetadataChainNode>,
    epoch: u64,
) -> (r: Option<usize>)
    requires
        sorted_non_decreasing(chain_timestamps(chain@)),
    ensures
        match r {
            Some(i) => i < chain@.len() && chain@[i as int].created_epoch <= epoch && (i + 1
                == chain@.len() || chain@[i as int + 1].created_epoch > epoch),
            None => forall|i: int| 0 <= i < chain@.len() ==> chain@[i].created_epoch > epoch,
        },
{
    let mut timestamps: Vec<u64> = Vec::new();
    let mut i: usize = 0;
    while i < chain.len()
        invariant
            i <= chain@.len(),
            timestamps@ == chain_timestamps(chain@).take(i as int),
        decreases chain@.len() - i,
    {
        timestamps.push(chain[i].created_epoch);
        proof {
            assert(timestamps@ =~= chain_timestamps(chain@).take(i + 1));
        }
        i = i + 1;
    }
    proof {
        assert(timestamps@ =~= chain_timestamps(chain@));
    }
    let r = select_version_index(&timestamps, epoch);
    proof {
        if r is None {
            assert forall|j: int| 0 <= j < chain@.len() implies chain@[j].created_epoch
                > epoch by {
                assert(timestamps@[j] > epoch);
            }
        }
    }
    r
}

/// A resolver of DID-linked resources over one registry contract. It holds
/// no mutable state: every call is an independent read against the
/// configured network.
#[derive(Debug, Clone, PartialEq, Eq)]
pub struct EthrDidLinkedResourcesResolver {
    pub config: ContractNetworkConfig,
}

impl EthrDidLinkedResourcesResolver {
    /// A resolver against the given network.
    pub fn new(config: ContractNetworkConfig) -> (r: EthrDidLinkedResourcesResolver)
        ensures
            r.config == config,
    {
        EthrDidLinkedResourcesResolver { config }
    }
}

} // verus!
