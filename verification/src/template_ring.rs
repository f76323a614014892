//! The template registry: the layouts known for each observation domain.

use crate::templates::{IPFIXTemplate, TemplateModel};
use std::collections::HashMap;
use vstd::prelude::*;

verus! {

broadcast use vstd::std_specs::hash::group_hash_axioms;

/// The templates that a parser knows, found by observation domain and
/// template id.
pub struct TemplateRing {
    // Keyed by `slot(odid, id)`.
    templates: HashMap<u64, IPFIXTemplate>,
}

/// The key under which the template `id` of the observation domain `odid`
/// is stored: the domain in the upper bits, the id in the lower sixteen.
pub open spec fn slot(odid: u32, id: u16) -> u64 {
    (odid as int * 0x1_0000 + id as int) as u64
}

/// The registry `reg` after `t` is installed: `t` stands under its own
/// observation domain and id, every other entry is as before.
pub open spec fn installed(
    reg: Map<(u32, u16), TemplateModel>,
    t: TemplateModel,
) -> Map<(u32, u16), TemplateModel> {
    reg.insert((t.odid, t.id), t)
}

/// What the registry `reg` holds for the template `id` of the observation
/// domain `odid`.
pub open spec fn lookup(reg: Map<(u32, u16), TemplateModel>, odid: u32, id: u16) -> Option<
    TemplateModel,
> {
    if reg.contains_key((odid, id)) {
        Some(reg[(odid, id)])
    } else {
        None
    }
}

impl View for TemplateRing {
    type V = Map<(u32, u16), TemplateModel>;

    /// The registry as a map from (observation domain, template id) to the
    /// template stored for them.
    closed spec fn view(&self) -> Map<(u32, u16), TemplateModel> {
        Map::new(
            |k: (u32, u16)| self.templates@.contains_key(slot(k.0, k.1)),
            |k: (u32, u16)| self.templates@[slot(k.0, k.1)]@,
        )
    }
}

impl TemplateRing {
    /// A registry that holds no template.
    pub fn new() -> (r: Self)
        ensures
            r@ == Map::<(u32, u16), TemplateModel>::empty(),
    {
        let r = TemplateRing { templates: HashMap::new() };
        assert(r@ =~= Map::<(u32, u16), TemplateModel>::empty());
        r
    }

    /// Installs `template` under its observation domain and id, in place of
    /// what was stored there. Tells whether something was.
    pub fn insert_template(&mut self, template: IPFIXTemplate) -> (replaced: bool)
        ensures
            final(self)@ == installed(old(self)@, template@),
            replaced == old(self)@.contains_key((template.odid, template.id)),
    {
        let key = (template.odid as u64) * 0x1_0000 + (template.id as u64);
        let ghost model = template@;
        let previous = self.templates.insert(key, template);
        proof {
            assert forall|k: (u32, u16)| slot(k.0, k.1) == key implies k == (model.odid, model.id) by {}
            assert(self@ =~= installed(old(self)@, model));
        }
        previous.is_some()
    }

    /// A copy of the template stored for the template `id` of the
    /// observation domain `odid`, if there is one.
    pub fn get_template(&self, id: u16, odid: u32) -> (r: Option<IPFIXTemplate>)
        ensures
            match r {
                Some(t) => lookup(self@, odid, id) == Some(t@),
                None => lookup(self@, odid, id) is None,
            },
    {
        let key = (odid as u64) * 0x1_0000 + (id as u64);
        match self.templates.get(&key) {
            None => None,
            Some(v) => Some(v.clone()),
        }
    }
}

/// After a template is installed, a lookup of its observation domain and id
/// finds it.
pub proof fn lemma_installed_is_found(reg: Map<(u32, u16), TemplateModel>, t: TemplateModel)
    ensures
        lookup(installed(reg, t), t.odid, t.id) == Some(t),
{
}

/// Installing a template leaves the entries of every other observation
/// domain and id as they were.
pub proof fn lemma_installed_keeps_others(
    reg: Map<(u32, u16), TemplateModel>,
    t: TemplateModel,
    odid: u32,
    id: u16,
)
    requires
        odid != t.odid || id != t.id,
    ensures
        lookup(installed(reg, t), odid, id) == lookup(reg, odid, id),
{
}

/// Installing the same template twice leaves the registry as installing it
/// once does.
pub proof fn lemma_install_is_idempotent(reg: Map<(u32, u16), TemplateModel>, t: TemplateModel)
    ensures
        installed(installed(reg, t), t) == installed(reg, t),
{
    assert(installed(installed(reg, t), t) =~= installed(reg, t));
}

} // verus!
