//! Which subscriber identities are routed to the Brew server.
//!
//! The decisions read the Brew section of the configuration (absent when Brew is not
//! configured) and the SSI ranges that the cell keeps local.
use vstd::prelude::*;
use crate::config::sec_brew::CfgBrew;
use crate::ranges::{SortedDisjointSsiRanges, ranges_contain, sorted_disjoint};
use crate::text::str_eq;

verus! {

/// Host name of the TetraPack server.
pub open spec fn tetrapack_host() -> Seq<char> {
    "core.tetrapack.online"@
}

/// Whether the configured Brew server is TetraPack.
pub open spec fn tetrapack_configured(brew: Option<CfgBrew>) -> bool {
    brew matches Some(b) && b.host@ == tetrapack_host()
}

/// Whether group `ssi` goes to Brew: Brew is configured, the SSI is not in a local range,
/// and, when a whitelist is configured, the SSI is on it.
pub open spec fn gssi_routable(brew: Option<CfgBrew>, local: Seq<crate::ranges::SsiRange>, ssi: u32) -> bool {
    &&& brew is Some
    &&& !ranges_contain(local, ssi)
    &&& (brew->0.whitelisted_ssis matches Some(w) ==> w@.contains(ssi))
}

/// Whether individual `issi` goes to Brew: Brew is configured, and on TetraPack the ISSI
/// has exactly 7 digits.
pub open spec fn issi_routable(brew: Option<CfgBrew>, issi: u32) -> bool {
    &&& brew is Some
    &&& (tetrapack_configured(brew) ==> 1_000_000 <= issi <= 9_999_999)
}

/// Whether the Brew component is active.
pub fn is_active(brew: &Option<CfgBrew>) -> (r: bool)
    ensures
        r == brew is Some,
{
    brew.is_some()
}

/// Whether SDS over Brew is enabled.
pub fn feature_sds_enabled(brew: &Option<CfgBrew>) -> (r: bool)
    ensures
        r == (brew matches Some(b) && b.feature_sds_enabled),
{
    match brew {
        Some(b) => b.feature_sds_enabled,
        None => false,
    }
}

/// Whether the configured Brew server is TetraPack (core.tetrapack.online).
pub fn is_tetrapack(brew: &Option<CfgBrew>) -> (r: bool)
    ensures
        r == tetrapack_configured(*brew),
{
    match brew {
        Some(b) => {
            let host = "core.tetrapack.online";
            proof {
                reveal_strlit("core.tetrapack.online");
            }
            str_eq(b.host.as_str(), host)
        },
        None => false,
    }
}

fn whitelist_contains(whitelist: &Vec<u32>, ssi: u32) -> (r: bool)
    ensures
        r == whitelist@.contains(ssi),
{
    let mut i: usize = 0;
    while i < whitelist.len()
        invariant
            i <= whitelist@.len(),
            forall|k: int| 0 <= k < i ==> #[trigger] whitelist@[k] != ssi,
        decreases whitelist@.len() - i,
    {
        if whitelist[i] == ssi {
            assert(whitelist@[i as int] == ssi);
            return true;
        }
        i = i + 1;
    }
    false
}

/// Whether group `ssi` should be routed over Brew, rather than kept to local handling.
pub fn is_brew_gssi_routable(brew: &Option<CfgBrew>, local_ssi_ranges: &SortedDisjointSsiRanges, ssi: u32) -> (r: bool)
    requires
        sorted_disjoint(local_ssi_ranges@),
    ensures
        r == gssi_routable(*brew, local_ssi_ranges@, ssi),
{
    let brew_config = match brew {
        Some(b) => b,
        None => return false,
    };
    if local_ssi_ranges.contains(ssi) {
        return false;
    }
    match &brew_config.whitelisted_ssis {
        Some(whitelist) => whitelist_contains(whitelist, ssi),
        None => true,
    }
}

/// Whether individual `issi` should be sent to the Brew server. On TetraPack, ISSIs must
/// be exactly 7 digits (1_000_000..=9_999_999); other servers take every ISSI.
pub fn is_brew_issi_routable(brew: &Option<CfgBrew>, issi: u32) -> (r: bool)
    ensures
        r == issi_routable(*brew, issi),
{
    if brew.is_none() {
        return false;
    }
    if is_tetrapack(brew) {
        issi >= 1_000_000 && issi <= 9_999_999
    } else {
        true
    }
}

} // verus!
