use criticality_bench::binary64::Binary64;
use criticality_bench::case_bundle::{compute_tsl_temp_filter, Slot, SlotArray};
use criticality_bench::data_loader::{
    build_sab_slots, build_temp_filter, check_nuclide_limit, estimate_bundle_bytes, nuclide_columns, DataLoadError,
};
use criticality_bench::materials::{
    Material, NuclideData, NuclideEntry, ResolvedMaterials, SvdXsProvider, ThermalScatteringData,
};
use std::sync::Arc;

const K_B: f64 = 8.617_333_262e-5;

fn number(x: f64) -> Binary64 {
    Binary64::from_bits(x.to_bits())
}

fn table(kelvins: &[f64]) -> Arc<ThermalScatteringData> {
    Arc::new(ThermalScatteringData {
        name: "test".to_string(),
        kts: kelvins.iter().map(|t| number(t * K_B)).collect(),
    })
}

fn material(kelvin: f64, nuclides: &[usize]) -> Material {
    Material {
        name: "m".to_string(),
        k_t: number(kelvin * K_B),
        nuclides: nuclides
            .iter()
            .map(|&i| NuclideEntry { atom_density: number(0.01), xs_kernel_idx: i })
            .collect(),
    }
}

fn nuclide(awr: f64) -> NuclideData {
    NuclideData { awr: number(awr), nu_bar_const: number(2.5), q_n2n: number(-1.0), q_n3n: number(-2.0) }
}

fn resolved(materials: Vec<Material>, thermal: Vec<Option<Arc<ThermalScatteringData>>>) -> ResolvedMaterials {
    let nuclides = thermal.iter().map(|_| nuclide(1.0)).collect();
    ResolvedMaterials { provider: SvdXsProvider { nuclides, thermal }, materials }
}

#[test]
fn single_material_between_two_temps_picks_pair() {
    let tsl = table(&[77.0, 100.0, 294.0, 296.0, 400.0]);
    let r = resolved(vec![material(295.0, &[0])], vec![Some(tsl.clone())]);
    let filter = compute_tsl_temp_filter(&r, &vec![(tsl, 0)]);
    assert_eq!(filter.len(), 1);
    assert_eq!(filter[0], vec![2, 3]);
}

#[test]
fn multi_material_unions_brackets() {
    let tsl = table(&[77.0, 100.0, 294.0, 296.0, 500.0, 700.0]);
    let r = resolved(vec![material(295.0, &[0]), material(600.0, &[0])], vec![Some(tsl.clone())]);
    let filter = compute_tsl_temp_filter(&r, &vec![(tsl, 0)]);
    assert_eq!(filter[0], vec![2, 3, 4, 5]);
}

#[test]
fn material_on_grid_picks_lower_pair() {
    let tsl = table(&[77.0, 100.0, 294.0, 296.0, 400.0]);
    let r = resolved(vec![material(294.0, &[0])], vec![Some(tsl.clone())]);
    let filter = compute_tsl_temp_filter(&r, &vec![(tsl, 0)]);
    assert_eq!(filter[0], vec![1, 2]);
}

#[test]
fn above_grid_clamps_to_last() {
    let tsl = table(&[77.0, 294.0]);
    let r = resolved(vec![material(600.0, &[0])], vec![Some(tsl.clone())]);
    let filter = compute_tsl_temp_filter(&r, &vec![(tsl, 0)]);
    assert_eq!(filter[0], vec![1]);
}

#[test]
fn unreferenced_nuclide_falls_back_to_all_temps() {
    let tsl = table(&[77.0, 294.0, 600.0]);
    let r = resolved(vec![material(300.0, &[1])], vec![Some(tsl.clone()), None]);
    let filter = compute_tsl_temp_filter(&r, &vec![(tsl, 0)]);
    assert_eq!(filter[0], vec![0, 1, 2]);
}

#[test]
fn build_sab_slots_skips_nuclides_without_tsl() {
    let r = resolved(vec![], vec![None, None, None]);
    assert!(build_sab_slots(&r).is_empty());
}

#[test]
fn slots_carry_their_nuclide() {
    let a = table(&[77.0, 294.0]);
    let b = table(&[294.0, 600.0]);
    let r = resolved(vec![material(294.0, &[1]), material(600.0, &[3])], vec![None, Some(a), None, Some(b)]);
    let slots = build_sab_slots(&r);
    let indices: Vec<usize> = slots.iter().map(|s| s.1).collect();
    assert_eq!(indices, vec![1, 3]);
    assert_eq!(build_temp_filter(&r, &slots), vec![vec![0, 1], vec![0, 1]]);
}

#[test]
fn material_at_other_nuclide_does_not_widen_filter() {
    let tsl = table(&[77.0, 294.0, 600.0, 900.0]);
    let r = resolved(
        vec![material(100.0, &[0]), material(800.0, &[1])],
        vec![Some(tsl.clone()), Some(tsl.clone())],
    );
    let filter = compute_tsl_temp_filter(&r, &vec![(tsl.clone(), 0), (tsl, 1)]);
    assert_eq!(filter, vec![vec![0, 1], vec![2, 3]]);
}

#[test]
fn bracket_of_a_single_temperature() {
    assert_eq!(table(&[294.0]).bracket(number(1.0)), (0, 0));
}

#[test]
fn slot_array_starts_empty() {
    let slots = SlotArray::with_capacity(3);
    assert_eq!(slots.capacity(), 3);
    assert!(slots.slots.iter().all(|s| matches!(s, Slot::Empty)));
}

#[test]
fn nuclide_limit_names_the_first_oversized_material() {
    let materials = vec![material(294.0, &[0]), material(294.0, &[0, 1, 2]), material(294.0, &[0, 1, 2, 3])];
    assert!(check_nuclide_limit(&materials, 4).is_ok());
    match check_nuclide_limit(&materials, 2) {
        Err(DataLoadError::TooManyNuclides { material_idx, material_name, n_nuclides, max_allowed }) => {
            assert_eq!((material_idx, n_nuclides, max_allowed), (1, 3, 2));
            assert_eq!(material_name, "m");
        }
        _ => panic!("the second material has too many nuclides"),
    }
}

#[test]
fn bundle_bytes_grow_with_every_part() {
    let two = resolved(vec![], vec![None, None]);
    let empty = resolved(vec![], vec![]);
    assert_eq!(estimate_bundle_bytes(&empty, 0, 0), 186 * 8);
    assert_eq!(estimate_bundle_bytes(&empty, 7, 10), 186 * 8 + 7 + 10 * 2 * 96);
    assert_eq!(estimate_bundle_bytes(&two, 0, 0), 2 * 8 * 1024 * 1024 + 2 * 186 * 8);
}

#[test]
fn columns_list_nuclides_in_order() {
    let c = nuclide_columns(&vec![nuclide(1.0), nuclide(235.0)]);
    assert_eq!(c.awrs, vec![number(1.0), number(235.0)]);
    assert_eq!(c.nu_bars, vec![number(2.5), number(2.5)]);
    assert_eq!(c.q_n2ns, vec![number(-1.0), number(-1.0)]);
    assert_eq!(c.q_n3ns, vec![number(-2.0), number(-2.0)]);
}

#[test]
fn empty_table_that_nothing_reads_gives_an_empty_filter() {
    let empty = table(&[]);
    let one = table(&[294.0]);
    let r = resolved(vec![material(294.0, &[1])], vec![Some(empty.clone()), Some(one.clone())]);
    let joined = compute_tsl_temp_filter(&r, &vec![(empty.clone(), 0), (one.clone(), 1), (one.clone(), 7)]);
    assert_eq!(joined, vec![vec![], vec![0], vec![0]]);
}
