//! Burning a pin cell: which nuclides it follows, the chain they decay along
//! and the reactions that a transport run feeds back into it.

use crate::binary64::Binary64;
use std::collections::HashMap;
use vstd::prelude::*;

verus! {

/// A nuclide of the pin cell and the material that holds it.
#[derive(Clone, Copy, Debug, PartialEq, Eq, Structural)]
pub struct BurnupNuclide {
    pub zaid: u32,
    pub material: usize,
}

/// The fuel is the first material.
pub const FUEL: usize = 0;

/// Nuclides of the pin cell.
pub const BURNUP_NUCLIDES: usize = 24;

/// The nuclides of the pin cell, by the number of their cross sections. Oxygen
/// stands twice, once for the fuel and once for the water.
pub open spec fn burnup_table() -> Seq<BurnupNuclide> {
    seq![
        BurnupNuclide { zaid: 92235, material: 0 },
        BurnupNuclide { zaid: 92238, material: 0 },
        BurnupNuclide { zaid: 8016, material: 0 },
        BurnupNuclide { zaid: 1001, material: 2 },
        BurnupNuclide { zaid: 40090, material: 1 },
        BurnupNuclide { zaid: 40091, material: 1 },
        BurnupNuclide { zaid: 40092, material: 1 },
        BurnupNuclide { zaid: 40094, material: 1 },
        BurnupNuclide { zaid: 8016, material: 2 },
        BurnupNuclide { zaid: 54135, material: 0 },
        BurnupNuclide { zaid: 92236, material: 0 },
        BurnupNuclide { zaid: 92237, material: 0 },
        BurnupNuclide { zaid: 92239, material: 0 },
        BurnupNuclide { zaid: 93237, material: 0 },
        BurnupNuclide { zaid: 93239, material: 0 },
        BurnupNuclide { zaid: 94239, material: 0 },
        BurnupNuclide { zaid: 94240, material: 0 },
        BurnupNuclide { zaid: 94241, material: 0 },
        BurnupNuclide { zaid: 94242, material: 0 },
        BurnupNuclide { zaid: 95241, material: 0 },
        BurnupNuclide { zaid: 53135, material: 0 },
        BurnupNuclide { zaid: 55135, material: 0 },
        BurnupNuclide { zaid: 61149, material: 0 },
        BurnupNuclide { zaid: 62149, material: 0 },
    ]
}

/// Lists the nuclides of the pin cell.
pub fn burnup_nuclides() -> (r: Vec<BurnupNuclide>)
    ensures
        r@ == burnup_table(),
        r@.len() == BURNUP_NUCLIDES,
{
    vec![
        BurnupNuclide { zaid: 92235, material: 0 },
        BurnupNuclide { zaid: 92238, material: 0 },
        BurnupNuclide { zaid: 8016, material: 0 },
        BurnupNuclide { zaid: 1001, material: 2 },
        BurnupNuclide { zaid: 40090, material: 1 },
        BurnupNuclide { zaid: 40091, material: 1 },
        BurnupNuclide { zaid: 40092, material: 1 },
        BurnupNuclide { zaid: 40094, material: 1 },
        BurnupNuclide { zaid: 8016, material: 2 },
        BurnupNuclide { zaid: 54135, material: 0 },
        BurnupNuclide { zaid: 92236, material: 0 },
        BurnupNuclide { zaid: 92237, material: 0 },
        BurnupNuclide { zaid: 92239, material: 0 },
        BurnupNuclide { zaid: 93237, material: 0 },
        BurnupNuclide { zaid: 93239, material: 0 },
        BurnupNuclide { zaid: 94239, material: 0 },
        BurnupNuclide { zaid: 94240, material: 0 },
        BurnupNuclide { zaid: 94241, material: 0 },
        BurnupNuclide { zaid: 94242, material: 0 },
        BurnupNuclide { zaid: 95241, material: 0 },
        BurnupNuclide { zaid: 53135, material: 0 },
        BurnupNuclide { zaid: 55135, material: 0 },
        BurnupNuclide { zaid: 61149, material: 0 },
        BurnupNuclide { zaid: 62149, material: 0 },
    ]
}

/// The numbers of the nuclides of fuel, clad and water, in the order in which the
/// materials list them.
pub open spec fn pin_material_nuclides() -> Seq<Seq<usize>> {
    seq![
        seq![0usize, 1, 2, 9, 10, 11, 12, 13, 14, 15, 16, 17, 18, 19, 20, 21, 22, 23],
        seq![4usize, 5, 6, 7],
        seq![3usize, 8],
    ]
}

/// Lists the nuclides of each material of the pin cell.
pub fn pin_materials() -> (r: Vec<Vec<usize>>)
    ensures
        r@.len() == 3,
        forall|m: int| 0 <= m < 3 ==> (#[trigger] r@[m])@ == pin_material_nuclides()[m],
{
    vec![
        vec![0, 1, 2, 9, 10, 11, 12, 13, 14, 15, 16, 17, 18, 19, 20, 21, 22, 23],
        vec![4, 5, 6, 7],
        vec![3, 8],
    ]
}

/// Every nuclide that a material lists is one that the table gives to that
/// material.
pub proof fn law_materials_list_their_own_nuclides(m: int, j: int)
    requires
        0 <= m < 3,
        0 <= j < pin_material_nuclides()[m].len(),
    ensures
        pin_material_nuclides()[m][j] < BURNUP_NUCLIDES,
        burnup_table()[pin_material_nuclides()[m][j] as int].material == m,
{
}

/// No two nuclides of the fuel have the same number.
pub proof fn law_fuel_nuclides_differ(a: int, b: int)
    requires
        0 <= a < b < BURNUP_NUCLIDES,
        burnup_table()[a].material == FUEL,
        burnup_table()[b].material == FUEL,
    ensures
        burnup_table()[a].zaid != burnup_table()[b].zaid,
{
}

/// A one-group cross section that a transport run came to.
#[derive(Clone, Copy, Debug, PartialEq, Eq, Structural)]
pub struct Collapsed {
    /// Number of the cross sections that it belongs to.
    pub nuclide: usize,
    pub mt: u32,
    pub barns: Binary64,
}

/// A nuclide that a reaction makes, and how many of it for each reaction.
#[derive(Clone, Copy, Debug, PartialEq, Eq, Structural)]
pub struct Product {
    pub zaid: u32,
    pub per_reaction: Binary64,
}

/// A reaction of the chain.
#[derive(Clone, Debug, PartialEq, Eq)]
pub struct ChainReaction {
    pub zaid: u32,
    pub mt: u32,
    pub barns: Binary64,
    /// What of the chain it makes; what the chain does not follow is left out.
    pub products: Vec<Product>,
}

/// A cross section belongs to a reaction: it is one of a nuclide of the fuel.
pub open spec fn feeds(c: Collapsed, r: ChainReaction) -> bool {
    &&& c.nuclide < BURNUP_NUCLIDES
    &&& burnup_table()[c.nuclide as int].material == FUEL
    &&& burnup_table()[c.nuclide as int].zaid == r.zaid
    &&& c.mt == r.mt
}

/// A reaction after the first `n` cross sections were taken over.
pub open spec fn fed(r: ChainReaction, collapsed: Seq<Collapsed>, n: int) -> ChainReaction
    decreases n,
{
    if n <= 0 {
        r
    } else if feeds(collapsed[n - 1], r) {
        ChainReaction { barns: collapsed[n - 1].barns, ..r }
    } else {
        fed(r, collapsed, n - 1)
    }
}

/// Takes the cross sections of a transport run over into the chain. What a
/// reaction makes stays as it is.
pub fn feed_chain(reactions: &mut Vec<ChainReaction>, collapsed: &Vec<Collapsed>)
    ensures
        final(reactions)@.len() == old(reactions)@.len(),
        forall|i: int|
            0 <= i < final(reactions)@.len() ==> #[trigger] final(reactions)@[i] == fed(
                old(reactions)@[i],
                collapsed@,
                collapsed@.len() as int,
            ),
{
    let table = burnup_nuclides();
    let mut i: usize = 0;
    while i < reactions.len()
        invariant
            table@ == burnup_table(),
            table@.len() == BURNUP_NUCLIDES,
            i <= reactions@.len(),
            reactions@.len() == old(reactions)@.len(),
            forall|k: int|
                0 <= k < i ==> #[trigger] reactions@[k] == fed(
                    old(reactions)@[k],
                    collapsed@,
                    collapsed@.len() as int,
                ),
            forall|k: int| i <= k < reactions@.len() ==> #[trigger] reactions@[k] == old(reactions)@[k],
        decreases reactions@.len() - i,
    {
        let ghost first = reactions@[i as int];
        let zaid: u32 = reactions[i].zaid;
        let mt: u32 = reactions[i].mt;
        let mut barns: Binary64 = reactions[i].barns;
        let mut j: usize = 0;
        while j < collapsed.len()
            invariant
                table@ == burnup_table(),
                table@.len() == BURNUP_NUCLIDES,
                j <= collapsed@.len(),
                zaid == first.zaid && mt == first.mt,
                (ChainReaction { barns, ..first }) == fed(first, collapsed@, j as int),
            decreases collapsed@.len() - j,
        {
            let c: Collapsed = collapsed[j];
            if c.nuclide < table.len() && table[c.nuclide].material == FUEL && table[c.nuclide].zaid == zaid && c.mt
                == mt {
                barns = c.barns;
            }
            j += 1;
        }
        reactions[i].barns = barns;
        i += 1;
    }
}

/// No two cross sections of a transport run feed the same reaction, so the order
/// in which they are taken over does not matter.
pub proof fn law_one_cross_section_feeds_a_reaction(a: Collapsed, b: Collapsed, r: ChainReaction)
    requires
        feeds(a, r),
        feeds(b, r),
    ensures
        a.nuclide == b.nuclide,
        a.mt == b.mt,
{
    if a.nuclide < b.nuclide {
        law_fuel_nuclides_differ(a.nuclide as int, b.nuclide as int);
    } else if b.nuclide < a.nuclide {
        law_fuel_nuclides_differ(b.nuclide as int, a.nuclide as int);
    }
}

/// A nuclide of a chain.
#[derive(Debug)]
pub struct ChainNuclide {
    pub name: String,
    pub zaid: u32,
    /// Per second; zero for a nuclide that does not decay.
    pub decay: Binary64,
    /// What it decays to, every time.
    pub daughter: Option<u32>,
}

/// The bits of 2.9264e-5, the decay constant of iodine 135.
pub const IODINE_DECAY_BITS: u64 = 0x3efe_af7e_c467_5ec5;

/// The bits of 2.10653e-5, the decay constant of xenon 135.
pub const XENON_DECAY_BITS: u64 = 0x3ef6_16ac_64ae_729d;

/// Nuclide `i` of the built-in chain.
pub open spec fn is_xenon_nuclide(n: ChainNuclide, i: int) -> bool {
    if i == 0 {
        n.name@ == "U-235"@ && n.zaid == 92235 && n.decay.bits == 0 && n.daughter is None
    } else if i == 1 {
        n.name@ == "I-135"@ && n.zaid == 53135 && n.decay.bits == IODINE_DECAY_BITS && n.daughter == Some(54135u32)
    } else if i == 2 {
        n.name@ == "Xe-135"@ && n.zaid == 54135 && n.decay.bits == XENON_DECAY_BITS && n.daughter == Some(55135u32)
    } else {
        n.name@ == "Cs-135"@ && n.zaid == 55135 && n.decay.bits == 0 && n.daughter is None
    }
}

/// A chain of nuclides and the reactions between them.
#[derive(Debug)]
pub struct Chain {
    pub nuclides: Vec<ChainNuclide>,
    pub reactions: Vec<ChainReaction>,
}

/// How much iodine 135 and xenon 135 a fission of uranium 235 makes.
#[derive(Clone, Copy, Debug, PartialEq, Eq, Structural)]
pub struct FissionYields {
    pub iodine: Binary64,
    pub xenon: Binary64,
}

/// The products of a fission in the built-in chain.
pub open spec fn fission_products(yields: FissionYields) -> Seq<Product> {
    seq![
        Product { zaid: 53135, per_reaction: yields.iodine },
        Product { zaid: 54135, per_reaction: yields.xenon },
    ]
}

/// The built-in chain: uranium fissions to iodine and xenon, iodine decays to
/// xenon, and xenon decays to caesium or captures to what the chain does not
/// follow.
pub fn build_chain(u235_fission: Binary64, xe135_capture: Binary64, yields: FissionYields) -> (r: Chain)
    ensures
        r.nuclides@.len() == 4,
        forall|i: int| 0 <= i < 4 ==> is_xenon_nuclide(#[trigger] r.nuclides@[i], i),
        r.reactions@.len() == 2,
        r.reactions@[0].zaid == 92235 && r.reactions@[0].mt == 18 && r.reactions@[0].barns == u235_fission,
        r.reactions@[0].products@ == fission_products(yields),
        r.reactions@[1].zaid == 54135 && r.reactions@[1].mt == 102 && r.reactions@[1].barns == xe135_capture,
        r.reactions@[1].products@.len() == 0,
{
    let zero = Binary64::zero();
    let mut nuclides: Vec<ChainNuclide> = Vec::new();
    nuclides.push(ChainNuclide { name: "U-235".to_owned(), zaid: 92235, decay: zero, daughter: None });
    nuclides.push(
        ChainNuclide {
            name: "I-135".to_owned(),
            zaid: 53135,
            decay: Binary64::from_bits(IODINE_DECAY_BITS),
            daughter: Some(54135),
        },
    );
    nuclides.push(
        ChainNuclide {
            name: "Xe-135".to_owned(),
            zaid: 54135,
            decay: Binary64::from_bits(XENON_DECAY_BITS),
            daughter: Some(55135),
        },
    );
    nuclides.push(ChainNuclide { name: "Cs-135".to_owned(), zaid: 55135, decay: zero, daughter: None });
    let mut reactions: Vec<ChainReaction> = Vec::new();
    let made = vec![
        Product { zaid: 53135, per_reaction: yields.iodine },
        Product { zaid: 54135, per_reaction: yields.xenon },
    ];
    reactions.push(ChainReaction { zaid: 92235, mt: 18, barns: u235_fission, products: made });
    reactions.push(ChainReaction { zaid: 54135, mt: 102, barns: xe135_capture, products: Vec::new() });
    Chain { nuclides, reactions }
}

/// `i` is where a nuclide stands in a chain.
pub open spec fn stands_at(nuclides: Seq<ChainNuclide>, zaid: u32, i: int) -> bool {
    &&& 0 <= i < nuclides.len()
    &&& nuclides[i].zaid == zaid
    &&& forall|k: int| 0 <= k < i ==> (#[trigger] nuclides[k]).zaid != zaid
}

impl Chain {
    /// Where a nuclide stands in the chain.
    pub fn index_of_zaid(&self, zaid: u32) -> (r: Option<usize>)
        ensures
            r matches Some(i) ==> stands_at(self.nuclides@, zaid, i as int),
            r is None ==> forall|k: int| 0 <= k < self.nuclides@.len() ==> (#[trigger] self.nuclides@[k]).zaid != zaid,
            r is Some <==> has_zaid(self.nuclides@, zaid),
    {
        let mut i: usize = 0;
        while i < self.nuclides.len()
            invariant
                i <= self.nuclides@.len(),
                forall|k: int| 0 <= k < i ==> (#[trigger] self.nuclides@[k]).zaid != zaid,
            decreases self.nuclides@.len() - i,
        {
            if self.nuclides[i].zaid == zaid {
                return Some(i);
            }
            i += 1;
        }
        None
    }

    /// Number and name of every nuclide, in the order of the chain.
    pub fn nuclide_list(&self) -> (r: Vec<(u32, String)>)
        ensures
            r@.len() == self.nuclides@.len(),
            forall|i: int|
                0 <= i < r@.len() ==> (#[trigger] r@[i]).0 == self.nuclides@[i].zaid && r@[i].1@
                    == self.nuclides@[i].name@,
    {
        let mut out: Vec<(u32, String)> = Vec::new();
        let mut i: usize = 0;
        while i < self.nuclides.len()
            invariant
                i <= self.nuclides@.len(),
                out@.len() == i,
                forall|k: int|
                    0 <= k < i ==> (#[trigger] out@[k]).0 == self.nuclides@[k].zaid && out@[k].1@
                        == self.nuclides@[k].name@,
            decreases self.nuclides@.len() - i,
        {
            out.push((self.nuclides[i].zaid, self.nuclides[i].name.clone()));
            i += 1;
        }
        out
    }

    /// Whether the chain follows plutonium and samarium besides xenon.
    pub fn follows_actinides(&self) -> (r: bool)
        ensures
            r == (has_zaid(self.nuclides@, 94239) && has_zaid(self.nuclides@, 94240) && has_zaid(
                self.nuclides@,
                62149,
            )),
    {
        let pu239 = self.index_of_zaid(94239);
        let pu240 = self.index_of_zaid(94240);
        let sm149 = self.index_of_zaid(62149);
        pu239.is_some() && pu240.is_some() && sm149.is_some()
    }
}

/// A nuclide stands in a chain.
pub open spec fn has_zaid(nuclides: Seq<ChainNuclide>, zaid: u32) -> bool {
    exists|k: int| 0 <= k < nuclides.len() && (#[trigger] nuclides[k]).zaid == zaid
}

/// Why numbers cannot be burned.
#[derive(Clone, Debug)]
pub enum BurnupError {
    /// There are not as many densities as nuclides.
    CompositionLength { given: usize, nuclides: usize },
    /// The matrix is not square, or not of the size of the densities.
    MatrixLength { given: usize, wanted: usize },
    /// The flux could not be asked for.
    Callback(String),
}

/// Checks that there is a density for every nuclide of a chain.
pub fn check_composition(given: usize, nuclides: usize) -> (r: Result<(), BurnupError>)
    ensures
        r is Ok <==> given == nuclides,
        r matches Err(e) ==> e == (BurnupError::CompositionLength { given, nuclides }),
{
    if given != nuclides {
        Err(BurnupError::CompositionLength { given, nuclides })
    } else {
        Ok(())
    }
}

/// Checks that a matrix has a row and a column for every density.
pub fn check_matrix(given: usize, n: usize) -> (r: Result<(), BurnupError>)
    requires
        n * n <= usize::MAX,
    ensures
        r is Ok <==> given == n * n,
        r matches Err(e) ==> e == (BurnupError::MatrixLength { given, wanted: (n * n) as usize }),
{
    let wanted: usize = n * n;
    if given != wanted {
        Err(BurnupError::MatrixLength { given, wanted })
    } else {
        Ok(())
    }
}

/// The flux during a step, where a caller is asked for it.
#[derive(Debug)]
pub struct FluxFeedback {
    /// Flux at the start of the step.
    pub start: Binary64,
    /// What went wrong first.
    pub failure: Option<String>,
}

impl FluxFeedback {
    pub fn new(start: Binary64) -> (r: Self)
        ensures
            r.start == start,
            r.failure is None,
    {
        FluxFeedback { start, failure: None }
    }

    /// Whether the caller is still asked: not after a failure.
    pub fn asks(&self) -> (r: bool)
        ensures
            r == (self.failure is None),
    {
        self.failure.is_none()
    }

    /// The flux to go on with: the caller's answer, or the flux at the start
    /// where there is none. A first failure is kept.
    pub fn take(&mut self, answer: Option<Result<Binary64, String>>) -> (r: Binary64)
        requires
            old(self).failure is None <==> answer is Some,
        ensures
            r == (match answer {
                Some(Ok(flux)) => flux,
                _ => old(self).start,
            }),
            final(self).start == old(self).start,
            final(self).failure == (match answer {
                Some(Err(e)) => Some(e),
                _ => old(self).failure,
            }),
    {
        match answer {
            Some(Ok(flux)) => flux,
            Some(Err(e)) => {
                self.failure = Some(e);
                self.start
            },
            None => self.start,
        }
    }

    /// What the step comes to: the corrected densities, unless the caller failed.
    pub fn settle(self, corrected: Vec<Binary64>) -> (r: Result<Vec<Binary64>, BurnupError>)
        ensures
            self.failure is None ==> r == Ok::<Vec<Binary64>, BurnupError>(corrected),
            self.failure matches Some(e) ==> r == Err::<Vec<Binary64>, BurnupError>(BurnupError::Callback(e)),
    {
        match self.failure {
            Some(e) => Err(BurnupError::Callback(e)),
            None => Ok(corrected),
        }
    }
}

/// The seed of the transport run of a step.
pub fn step_seed(step: u32) -> (r: u64)
    ensures
        r == 42 + step,
{
    42 + step as u64
}

/// Densities at the start: one nuclide has some, the others none.
pub fn start_composition(n: usize, place: usize, density: Binary64) -> (r: Vec<Binary64>)
    requires
        place < n,
    ensures
        r@ == Seq::new(n as nat, |i: int| if i == place { density } else { (Binary64 { bits: 0 }) }),
{
    let mut out: Vec<Binary64> = Vec::new();
    let mut i: usize = 0;
    while i < n
        invariant
            i <= n,
            out@ == Seq::new(i as nat, |k: int| if k == place { density } else { (Binary64 { bits: 0 }) }),
        decreases n - i,
    {
        out.push(if i == place { density } else { Binary64::zero() });
        i += 1;
    }
    out
}

/// A weight for the nuclide cache.
#[derive(Clone, Copy, Debug, PartialEq, Eq, Structural)]
pub struct CacheWeight {
    /// The cache's key, where the nuclide could be found.
    pub key: Option<u64>,
    pub weight: u64,
}

/// The weights by key after the first `n` were taken: a later one replaces an
/// earlier one, and one without a key is passed over.
pub open spec fn weights_after(weights: Seq<CacheWeight>, n: int) -> Map<u64, u64>
    decreases n,
{
    if n <= 0 {
        Map::empty()
    } else {
        match weights[n - 1].key {
            Some(k) => weights_after(weights, n - 1).insert(k, weights[n - 1].weight),
            None => weights_after(weights, n - 1),
        }
    }
}

/// The nuclide of a weight could be found.
pub open spec fn is_resolved() -> spec_fn(CacheWeight) -> bool {
    |w: CacheWeight| w.key is Some
}

/// Collects the weights for the nuclide cache, and counts those whose nuclide could
/// be found. Two weights for one key count twice.
pub fn preload_nuclide_cache_weights(weights: &Vec<CacheWeight>) -> (r: (HashMap<u64, u64>, usize))
    ensures
        r.0@ == weights_after(weights@, weights@.len() as int),
        r.1 == weights@.filter(is_resolved()).len(),
{
    broadcast use vstd::std_specs::hash::group_hash_axioms;

    let mut map: HashMap<u64, u64> = HashMap::new();
    let mut resolved: usize = 0;
    let mut i: usize = 0;
    proof {
        reveal(Seq::filter);
    }
    while i < weights.len()
        invariant
            i <= weights@.len(),
            resolved <= i,
            resolved == weights@.take(i as int).filter(is_resolved()).len(),
            map@ == weights_after(weights@, i as int),
        decreases weights@.len() - i,
    {
        broadcast use vstd::std_specs::hash::group_hash_axioms;

        let w: CacheWeight = weights[i];
        proof {
            crate::pipeline::lemma_filter_step(weights@, is_resolved(), i as int);
        }
        if let Some(k) = w.key {
            map.insert(k, w.weight);
            resolved += 1;
        }
        i += 1;
    }
    assert(weights@.take(i as int) =~= weights@);
    (map, resolved)
}

/// Why a fission spectrum could not be read.
#[derive(Clone, Copy, Debug, PartialEq, Eq, Structural)]
pub enum SpectrumError {
    NoSpectrum,
    OutOfRange { index: usize, nodes: usize },
}

/// How large a fission spectrum is.
#[derive(Clone, Copy, Debug, PartialEq, Eq, Structural)]
pub struct SpectrumSize {
    /// Incident energies.
    pub nodes: usize,
    /// Distributions of outgoing energies.
    pub distributions: usize,
}

/// Checks that a fission spectrum has a distribution of this number.
pub fn fission_outgoing_at(size: Option<SpectrumSize>, index: usize) -> (r: Result<usize, SpectrumError>)
    ensures
        r == (match size {
            None => Err::<usize, SpectrumError>(SpectrumError::NoSpectrum),
            Some(s) => if index < s.distributions {
                Ok(index)
            } else {
                Err(SpectrumError::OutOfRange { index, nodes: s.nodes })
            },
        }),
{
    match size {
        None => Err(SpectrumError::NoSpectrum),
        Some(s) => if index < s.distributions {
            Ok(index)
        } else {
            Err(SpectrumError::OutOfRange { index, nodes: s.nodes })
        },
    }
}

/// `fed` changes nothing of a reaction but its cross section.
proof fn lemma_fed(r: ChainReaction, collapsed: Seq<Collapsed>, n: int)
    requires
        0 <= n <= collapsed.len(),
    ensures
        fed(r, collapsed, n).zaid == r.zaid,
        fed(r, collapsed, n).mt == r.mt,
        fed(r, collapsed, n).products == r.products,
        (forall|j: int| 0 <= j < n ==> !feeds(#[trigger] collapsed[j], r)) ==> fed(r, collapsed, n).barns == r.barns,
        forall|j: int|
            0 <= j < n && feeds(#[trigger] collapsed[j], r) && (forall|l: int|
                j < l < n ==> !feeds(#[trigger] collapsed[l], r)) ==> fed(r, collapsed, n).barns
                == collapsed[j].barns,
    decreases n,
{
    if n > 0 {
        lemma_fed(r, collapsed, n - 1);
    }
}

/// A reaction keeps its nuclide, its number and its products, and takes the cross
/// section that was found for that nuclide and number in the fuel, the last one
/// where there are several; without one it keeps its own.
pub proof fn law_reaction_takes_its_own_cross_section(
    reactions: &mut Vec<ChainReaction>,
    collapsed: &Vec<Collapsed>,
    i: int,
    j: int,
)
    requires
        call_ensures(feed_chain, (reactions, collapsed), ()),
        0 <= i < old(reactions)@.len(),
        collapsed@.len() <= usize::MAX,
    ensures
        final(reactions)@.len() == old(reactions)@.len(),
        final(reactions)@[i].zaid == old(reactions)@[i].zaid,
        final(reactions)@[i].mt == old(reactions)@[i].mt,
        final(reactions)@[i].products == old(reactions)@[i].products,
        ({
            let r = old(reactions)@[i];
            let fits = |c: Collapsed|
                c.nuclide < burnup_table().len() && burnup_table()[c.nuclide as int].material == 0
                    && burnup_table()[c.nuclide as int].zaid == r.zaid && c.mt == r.mt;
            &&& (forall|l: int| 0 <= l < collapsed@.len() ==> !fits(#[trigger] collapsed@[l]))
                ==> final(reactions)@[i].barns == r.barns
            &&& 0 <= j < collapsed@.len() && fits(collapsed@[j]) && (forall|l: int|
                j < l < collapsed@.len() ==> !fits(#[trigger] collapsed@[l])) ==> final(reactions)@[i].barns
                == collapsed@[j].barns
        }),
{
    let r = old(reactions)@[i];
    let n = collapsed@.len() as int;
    lemma_fed(r, collapsed@, n);
    let fits = |c: Collapsed|
        c.nuclide < burnup_table().len() && burnup_table()[c.nuclide as int].material == 0
            && burnup_table()[c.nuclide as int].zaid == r.zaid && c.mt == r.mt;
    assert forall|c: Collapsed| #[trigger] fits(c) == feeds(c, r) by {}
    assert(forall|l: int| 0 <= l < n ==> fits(#[trigger] collapsed@[l]) == feeds(collapsed@[l], r));
}

/// The clad holds zirconium alone, the water hydrogen and oxygen, and the fuel
/// neither hydrogen nor zirconium; every nuclide is in the list of its material,
/// once.
pub proof fn law_nuclides_are_in_their_materials(table: Vec<BurnupNuclide>, lists: Vec<Vec<usize>>, i: int)
    requires
        call_ensures(burnup_nuclides, (), table),
        call_ensures(pin_materials, (), lists),
        0 <= i < table@.len(),
    ensures
        table@.len() == 24,
        lists@.len() == 3,
        table@[i].material == 1 <==> table@[i].zaid / 1000 == 40,
        table@[i].material == 2 ==> table@[i].zaid == 1001 || table@[i].zaid == 8016,
        table@[i].zaid == 1001 ==> table@[i].material == 2,
        table@[i].material == 0 || table@[i].material == 1 || table@[i].material == 2,
        exists|j: int|
            0 <= j < lists@[table@[i].material as int]@.len() && #[trigger] lists@[table@[i].material as int]@[j] == i,
        forall|m: int, j: int|
            0 <= m < 3 && 0 <= j < lists@[m]@.len() && #[trigger] lists@[m]@[j] == i ==> m == table@[i].material,
{
    let t = burnup_table();
    let own = pin_material_nuclides()[t[i].material as int];
    assert(lists@[t[i].material as int]@ == own);
    let fuel = pin_material_nuclides()[0];
    assert(fuel[0] == 0 && fuel[1] == 1 && fuel[2] == 2);
    if 9 <= i {
        assert(own[i - 6] == i);
    } else if 4 <= i < 8 {
        assert(own[i - 4] == i);
    } else if i == 3 {
        assert(own[0] == i);
    } else if i == 8 {
        assert(own[1] == i);
    } else {
        assert(own[i] == i);
    }
    assert forall|m: int, j: int|
        0 <= m < 3 && 0 <= j < lists@[m]@.len() && #[trigger] lists@[m]@[j] == i implies m == t[i].material by {
        law_materials_list_their_own_nuclides(m, j);
        assert(lists@[m]@ == pin_material_nuclides()[m]);
    }
}

/// What decays in the built-in chain decays to the nuclide of the same mass with one
/// proton more, and a nuclide has a decay constant exactly where it has a daughter.
/// Fission makes two nuclides of mass 135 that the chain follows, with the yields
/// given for iodine and xenon; capture makes nothing that it follows.
pub proof fn law_chain_conserves_mass(
    fission: Binary64,
    capture: Binary64,
    yields: FissionYields,
    chain: Chain,
    i: int,
)
    requires
        call_ensures(build_chain, (fission, capture, yields), chain),
        0 <= i < chain.nuclides@.len(),
    ensures
        chain.nuclides@.len() == 4,
        chain.nuclides@[i].daughter matches Some(d) ==> d == chain.nuclides@[i].zaid + 1000,
        chain.nuclides@[i].daughter is Some <==> chain.nuclides@[i].decay.scaled() > 0,
        chain.nuclides@[i].daughter matches Some(d) ==> has_zaid(chain.nuclides@, d),
        forall|k: int| 0 <= k < i ==> (#[trigger] chain.nuclides@[k]).zaid != chain.nuclides@[i].zaid,
        chain.reactions@.len() == 2,
        chain.reactions@[0].zaid == 92235 && chain.reactions@[0].mt == 18 && chain.reactions@[0].barns == fission,
        chain.reactions@[1].zaid == 54135 && chain.reactions@[1].mt == 102 && chain.reactions@[1].barns == capture,
        chain.reactions@[1].products@.len() == 0,
        chain.reactions@[0].products@.len() == 2,
        forall|p: int|
            0 <= p < 2 ==> {
                let made = #[trigger] chain.reactions@[0].products@[p];
                &&& made.zaid % 1000 == 135 && has_zaid(chain.nuclides@, made.zaid)
                &&& made.zaid / 1000 == 53 ==> made.per_reaction == yields.iodine
                &&& made.zaid / 1000 == 54 ==> made.per_reaction == yields.xenon
            },
        chain.reactions@[0].products@[0].zaid != chain.reactions@[0].products@[1].zaid,
{
    let n = chain.nuclides@;
    assert(is_xenon_nuclide(n[0], 0) && is_xenon_nuclide(n[1], 1) && is_xenon_nuclide(n[2], 2) && is_xenon_nuclide(
        n[3],
        3,
    ));
    crate::binary64::lemma_scaled_magnitude_increases(0, IODINE_DECAY_BITS as int);
    crate::binary64::lemma_scaled_magnitude_increases(0, XENON_DECAY_BITS as int);
}

/// A nuclide is found at the first place where it stands in a chain, and a chain
/// follows actinides exactly where plutonium 239 and 240 and samarium 149 are in it.
pub proof fn law_nuclides_are_found_in_a_chain(chain: &Chain, zaid: u32, at: Option<usize>, follows: bool)
    requires
        call_ensures(Chain::index_of_zaid, (chain, zaid), at),
        call_ensures(Chain::follows_actinides, (chain,), follows),
    ensures
        at matches Some(i) ==> i < chain.nuclides@.len() && chain.nuclides@[i as int].zaid == zaid && forall|k: int|
            0 <= k < i ==> (#[trigger] chain.nuclides@[k]).zaid != zaid,
        at is None <==> forall|k: int| 0 <= k < chain.nuclides@.len() ==> (#[trigger] chain.nuclides@[k]).zaid != zaid,
        follows && (zaid == 94239 || zaid == 94240 || zaid == 62149) ==> at is Some,
        !follows ==> exists|z: u32|
            (z == 94239 || z == 94240 || z == 62149) && !#[trigger] has_zaid(chain.nuclides@, z),
{
    if at is None {
        assert forall|k: int| 0 <= k < chain.nuclides@.len() implies (#[trigger] chain.nuclides@[k]).zaid != zaid by {
            assert(!has_zaid(chain.nuclides@, zaid));
        }
    }
}

/// The weight that the cache keeps for a key is the last one that was listed for it,
/// and there is one exactly where some entry has the key.
proof fn lemma_weights(weights: Seq<CacheWeight>, n: int, j: int)
    requires
        0 <= j < n <= weights.len(),
        weights[j].key is Some,
        forall|l: int| j < l < n ==> (#[trigger] weights[l]).key != weights[j].key,
    ensures
        weights_after(weights, n).dom().contains(weights[j].key->0),
        weights_after(weights, n)[weights[j].key->0] == weights[j].weight,
    decreases n,
{
    if j < n - 1 {
        assert(weights[n - 1].key != weights[j].key);
        lemma_weights(weights, n - 1, j);
    }
}

proof fn lemma_weight_keys(weights: Seq<CacheWeight>, n: int, key: u64)
    requires
        0 <= n <= weights.len(),
        forall|l: int| 0 <= l < n ==> (#[trigger] weights[l]).key != Some(key),
    ensures
        !weights_after(weights, n).dom().contains(key),
    decreases n,
{
    if n > 0 {
        assert(weights[n - 1].key != Some(key));
        lemma_weight_keys(weights, n - 1, key);
    }
}

/// The cache has the last weight that was listed for a key, nothing for a key that
/// was not listed, and counts every entry that has a key.
pub proof fn law_cache_holds_the_last_weights(
    weights: &Vec<CacheWeight>,
    r: (HashMap<u64, u64>, usize),
    j: int,
    missing: u64,
)
    requires
        call_ensures(preload_nuclide_cache_weights, (weights,), r),
        0 <= j < weights@.len(),
        weights@[j].key is Some,
        forall|l: int| j < l < weights@.len() ==> (#[trigger] weights@[l]).key != weights@[j].key,
        forall|l: int| 0 <= l < weights@.len() ==> (#[trigger] weights@[l]).key != Some(missing),
    ensures
        r.0@.dom().contains(weights@[j].key->0) && r.0@[weights@[j].key->0] == weights@[j].weight,
        !r.0@.dom().contains(missing),
        r.1 == weights@.filter(|w: CacheWeight| w.key is Some).len(),
{
    lemma_weights(weights@, weights@.len() as int, j);
    lemma_weight_keys(weights@, weights@.len() as int, missing);
    assert(is_resolved() =~= (|w: CacheWeight| w.key is Some));
}

/// A start composition holds the density at its place and nothing anywhere else; a
/// composition and a matrix are taken exactly where their lengths fit the nuclides.
pub proof fn law_compositions_fit_their_nuclides(
    n: usize,
    place: usize,
    density: Binary64,
    start: Vec<Binary64>,
    given: usize,
    composition: Result<(), BurnupError>,
    matrix: Result<(), BurnupError>,
    i: int,
)
    requires
        call_ensures(start_composition, (n, place, density), start),
        call_ensures(check_composition, (given, n), composition),
        call_ensures(check_matrix, (given, n), matrix),
        0 <= i < n,
    ensures
        start@.len() == n,
        i == place ==> start@[i] == density,
        i != place ==> start@[i].scaled() == 0 && !start@[i].nan(),
        composition is Ok <==> given == n,
        matrix is Ok <==> given == n * n,
{
}

/// After a callback failed, every flux is the one that the step started with, and
/// the failure is what the step comes to; as long as none failed, the callback's own
/// flux is taken.
pub proof fn law_failed_callback_is_remembered(
    f: &mut FluxFeedback,
    answer: Option<Result<Binary64, String>>,
    flux: Binary64,
)
    requires
        call_ensures(FluxFeedback::take, (f, answer), flux),
        old(f).failure is None <==> answer is Some,
    ensures
        answer matches Some(Ok(x)) ==> flux == x && final(f).failure is None,
        answer matches Some(Err(e)) ==> flux == old(f).start && final(f).failure == Some(e),
        old(f).failure is Some ==> flux == old(f).start && final(f).failure == old(f).failure,
        final(f).start == old(f).start,
{
}

/// The outgoing distribution at an index is that one, where there is one.
pub proof fn law_spectrum_index_is_kept(
    size: Option<SpectrumSize>,
    index: usize,
    r: Result<usize, SpectrumError>,
)
    requires
        call_ensures(fission_outgoing_at, (size, index), r),
    ensures
        r is Ok <==> size is Some && index < size->0.distributions,
        r matches Ok(i) ==> i == index,
        size is None ==> r == Err::<usize, SpectrumError>(SpectrumError::NoSpectrum),
{
}

/// Every step of a burnup has its own seed, and the list of a chain's nuclides gives
/// each with its number and name, in order.
pub proof fn law_steps_and_lists(a: u32, b: u32, ra: u64, rb: u64, chain: &Chain, list: Vec<(u32, String)>, i: int)
    requires
        call_ensures(step_seed, (a,), ra),
        call_ensures(step_seed, (b,), rb),
        call_ensures(Chain::nuclide_list, (chain,), list),
        0 <= i < chain.nuclides@.len(),
    ensures
        ra == rb <==> a == b,
        ra - rb == a - b,
        a == 0 ==> ra == 42,
        list@.len() == chain.nuclides@.len(),
        list@[i].0 == chain.nuclides@[i].zaid && list@[i].1@ == chain.nuclides@[i].name@,
{
}

} // verus!
