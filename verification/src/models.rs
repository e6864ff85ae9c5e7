//! The model catalogue the terminal offers.
//!
//! The models come from the profile's provider registry, the same source the
//! gateway routes by, filtered through the gateway's own exposure rule; reading
//! the registry is the caller's. What is decided here: the terminal never comes
//! up empty (the configured default stands in for an empty registry), the
//! configured `models` list narrows the catalogue (keeping the default), and
//! the default leads the list, since it is what a session gets when the picker
//! is never touched.
use vstd::prelude::*;

use crate::config::PiConfig;
use crate::text::{chars_of, string_of_range, trim, trim_bounds};

verus! {

/// One model a session may run, and the provider it belongs to.
pub struct GatewayModel {
    pub id: String,
    pub provider: String,
    pub context_window: Option<u32>,
    pub max_output_tokens: Option<u32>,
}

impl GatewayModel {
    /// A copy of this entry.
    pub fn duplicate(&self) -> (r: GatewayModel)
        ensures
            r == *self,
    {
        GatewayModel {
            id: self.id.clone(),
            provider: self.provider.clone(),
            context_window: self.context_window,
            max_output_tokens: self.max_output_tokens,
        }
    }
}

/// Whether the configured list lets `id` through: the default always does.
pub open spec fn listed(cfg: PiConfig, id: Seq<char>) -> bool {
    id == cfg.model@ || exists|k: int| 0 <= k < cfg.models.len() && #[trigger] cfg.models@[k]@ == id
}

/// The entries whose id the configured list lets through, in order.
pub open spec fn keep_listed(ms: Seq<GatewayModel>, cfg: PiConfig) -> Seq<GatewayModel>
    decreases ms.len(),
{
    if ms.len() == 0 {
        seq![]
    } else {
        let p = keep_listed(ms.drop_last(), cfg);
        if listed(cfg, ms.last().id@) {
            p.push(ms.last())
        } else {
            p
        }
    }
}

/// The entries whose id is (or, with `same` false, is not) `id`, in order.
pub open spec fn with_id(ms: Seq<GatewayModel>, id: Seq<char>, same: bool) -> Seq<GatewayModel>
    decreases ms.len(),
{
    if ms.len() == 0 {
        seq![]
    } else {
        let p = with_id(ms.drop_last(), id, same);
        if (ms.last().id@ == id) == same {
            p.push(ms.last())
        } else {
            p
        }
    }
}

/// The configured default, standing in when the registry offers nothing.
pub open spec fn default_model(cfg: PiConfig) -> GatewayModel {
    GatewayModel {
        id: cfg.model,
        provider: cfg.provider,
        context_window: None,
        max_output_tokens: None,
    }
}

/// Every model a session may run, default first: the advertised models (or
/// the default alone when there are none), narrowed by a non-empty configured
/// list, with the default's entries moved to the front and the order otherwise
/// kept.
pub open spec fn catalogue_spec(cfg: PiConfig, advertised: Seq<GatewayModel>) -> Seq<GatewayModel> {
    let base = if advertised.len() == 0 {
        seq![default_model(cfg)]
    } else {
        advertised
    };
    let kept = if cfg.models.len() == 0 {
        base
    } else {
        keep_listed(base, cfg)
    };
    with_id(kept, cfg.model@, true) + with_id(kept, cfg.model@, false)
}

fn is_listed(cfg: &PiConfig, id: &String) -> (b: bool)
    ensures
        b == listed(*cfg, id@),
{
    if *id == cfg.model {
        return true;
    }
    let mut k: usize = 0;
    while k < cfg.models.len()
        invariant
            k <= cfg.models.len(),
            forall|j: int| 0 <= j < k ==> #[trigger] cfg.models@[j]@ != id@,
        decreases cfg.models.len() - k,
    {
        if cfg.models[k] == *id {
            return true;
        }
        k = k + 1;
    }
    false
}

fn select(ms: &Vec<GatewayModel>, id: &String, same: bool, out: &mut Vec<GatewayModel>)
    ensures
        final(out)@ == old(out)@ + with_id(ms@, id@, same),
{
    let ghost start = out@;
    let mut i: usize = 0;
    while i < ms.len()
        invariant
            i <= ms.len(),
            out@ == start + with_id(ms@.take(i as int), id@, same),
        decreases ms.len() - i,
    {
        assert(ms@.take(i + 1).drop_last() =~= ms@.take(i as int));
        assert(ms@.take(i + 1).last() == ms@[i as int]);
        if (ms[i].id == *id) == same {
            out.push(ms[i].duplicate());
        }
        i = i + 1;
        assert(out@ =~= start + with_id(ms@.take(i as int), id@, same));
    }
    assert(ms@.take(ms.len() as int) =~= ms@);
}

/// Every model a session may run, default first. `advertised` is what the
/// provider registry offers after the gateway's exposure rule.
pub fn catalogue(cfg: &PiConfig, advertised: Vec<GatewayModel>) -> (out: Vec<GatewayModel>)
    ensures
        out@ == catalogue_spec(*cfg, advertised@),
{
    let base = if advertised.len() == 0 {
        let mut b: Vec<GatewayModel> = Vec::new();
        b.push(GatewayModel {
            id: cfg.model.clone(),
            provider: cfg.provider.clone(),
            context_window: None,
            max_output_tokens: None,
        });
        assert(b@ =~= seq![default_model(*cfg)]);
        b
    } else {
        advertised
    };
    let kept = if cfg.models.len() == 0 {
        base
    } else {
        let mut k: Vec<GatewayModel> = Vec::new();
        let mut i: usize = 0;
        while i < base.len()
            invariant
                i <= base.len(),
                k@ == keep_listed(base@.take(i as int), *cfg),
            decreases base.len() - i,
        {
            assert(base@.take(i + 1).drop_last() =~= base@.take(i as int));
            assert(base@.take(i + 1).last() == base@[i as int]);
            if is_listed(cfg, &base[i].id) {
                k.push(base[i].duplicate());
            }
            i = i + 1;
        }
        assert(base@.take(base.len() as int) =~= base@);
        k
    };
    let mut out: Vec<GatewayModel> = Vec::new();
    select(&kept, &cfg.model, true, &mut out);
    select(&kept, &cfg.model, false, &mut out);
    assert(out@ =~= catalogue_spec(*cfg, advertised@));
    out
}

/// Whether some entry has the id `id`.
pub open spec fn offers(ms: Seq<GatewayModel>, id: Seq<char>) -> bool {
    exists|k: int| 0 <= k < ms.len() && #[trigger] ms[k].id@ == id
}

/// A client's model request, resolved: no request is the default; a request
/// (trimmed) that the catalogue offers is itself; anything else is `None`,
/// which the caller must refuse.
pub open spec fn resolve_spec(cfg: PiConfig, advertised: Seq<GatewayModel>, requested: Option<Seq<char>>) -> Option<
    Seq<char>,
> {
    match requested {
        None => Some(cfg.model@),
        Some(m) => if offers(catalogue_spec(cfg, advertised), trim(m)) {
            Some(trim(m))
        } else {
            None
        },
    }
}

/// Resolves a client's model request against the catalogue.
pub fn resolve(cfg: &PiConfig, advertised: Vec<GatewayModel>, requested: Option<&str>) -> (r: Option<
    String,
>)
    ensures
        match r {
            Some(id) => resolve_spec(
                *cfg,
                advertised@,
                match requested {
                    Some(m) => Some(m@),
                    None => None,
                },
            ) == Some(id@),
            None => resolve_spec(
                *cfg,
                advertised@,
                match requested {
                    Some(m) => Some(m@),
                    None => None,
                },
            ) is None,
        },
{
    let m = match requested {
        None => {
            return Some(cfg.model.clone());
        },
        Some(m) => m,
    };
    let cs = chars_of(m);
    let (a, b) = trim_bounds(&cs);
    let wanted = string_of_range(&cs, a, b);
    let ghost adv = advertised@;
    let all = catalogue(cfg, advertised);
    let mut i: usize = 0;
    while i < all.len()
        invariant
            i <= all.len(),
            wanted@ == trim(m@),
            requested == Some(m),
            adv == advertised@,
            all@ == catalogue_spec(*cfg, adv),
            forall|j: int| 0 <= j < i ==> #[trigger] all@[j].id@ != wanted@,
        decreases all.len() - i,
    {
        if all[i].id == wanted {
            assert(offers(all@, wanted@) ) by {
                assert(all@[i as int].id@ == wanted@);
            }
            return Some(all[i].id.clone());
        }
        i = i + 1;
    }
    None
}

} // verus!
