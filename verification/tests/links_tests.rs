use rand::Isaac64Rng;
use rand::SeedableRng;
use worldgen::climate::Band;
use worldgen::climate::Climate;
use worldgen::climate::MaterialCues;
use worldgen::climate::PointSampleData;
use worldgen::grid::TotalGridBuilder;
use worldgen::links::generate_links_for;
use worldgen::links::inside_slice;
use worldgen::links::keeps_previous;
use worldgen::links::link_is_kept;
use worldgen::links::traversible_link;
use worldgen::links::visiting_order;
use worldgen::links::within_any;
use worldgen::links::WorldLink;
use worldgen::links::DISCARD_ODDS;
use worldgen::links::MAX_LEN;
use worldgen::material::Material;
use worldgen::points::CPoint2;
use worldgen::points::DPoint2;
use worldgen::scalar::Scalar;
use worldgen::zone_gen::Survey;
use worldgen::zones::Zone;
use worldgen::zones::ZoneSample;

fn sc(x: f32) -> Scalar {
    Scalar::from_bits(x.to_bits()).unwrap()
}

fn fl(s: Scalar) -> f32 {
    f32::from_bits(s.to_bits())
}

fn pt(x: f32, y: f32) -> CPoint2 {
    CPoint2::new(sc(x), sc(y))
}

fn climate() -> Climate {
    Climate {
        size: sc(0.3),
        water_level: sc(0.5),
        snow_below_temp: sc(0.2),
        trees_reach: sc(0.04),
        grass_reach: sc(0.06),
        grass_within: Band { low: sc(0.1), high: sc(0.2) },
        trees_within: Band { low: sc(0.1), high: sc(0.3) },
    }
}

fn survey(at: CPoint2, height: f32) -> Survey {
    Survey {
        pt: at,
        data: PointSampleData {
            temp: sc(0.5),
            height: sc(height),
            x_slope: sc(0.0),
            y_slope: sc(0.0),
            slope: sc(0.0),
        },
        cues: MaterialCues { frost_temp: sc(0.52), veg_dist: sc(1.0) },
    }
}

fn zone_of(tl: (f32, f32), step: (f32, f32), mat: Material) -> Zone {
    let mut builder = TotalGridBuilder::new();
    for y in 0..3 {
        for x in 0..3 {
            let at = pt(tl.0 + x as f32 * step.0, tl.1 + y as f32 * step.1);
            builder.append(ZoneSample { pt: at, data: survey(at, 0.6).data, mat });
        }
    }
    let br = pt(tl.0 + 2.0 * step.0, tl.1 + 2.0 * step.1);
    Zone::new(pt(tl.0, tl.1), br, pt(tl.0, tl.1), br, builder.finalize(DPoint2::new(3, 3)).unwrap())
}

fn zone_a() -> Zone {
    zone_of((0.1, 0.1), (0.05, 0.1), Material::Rock)
}

fn zone_b(mat: Material) -> Zone {
    zone_of((0.25, 0.1), (0.05, 0.1), mat)
}

fn wider(a: CPoint2, b: CPoint2) -> Scalar {
    let x = (fl(a.x) - fl(b.x)) * 2.0;
    let y = fl(a.y) - fl(b.y);
    sc((x * x + y * y).powf(0.5))
}

fn no_probes(_a: CPoint2, _b: CPoint2) -> Vec<Survey> {
    Vec::new()
}

fn link_with_length(length: f32) -> WorldLink {
    WorldLink {
        zone_a_coord: DPoint2::new(1, 0),
        zone_b_coord: DPoint2::new(1, 2),
        world_a_pt: pt(0.0, 0.0),
        world_b_pt: pt(0.0, 0.0),
        mat_a: Material::Rock,
        mat_b: Material::Rock,
        land_link: true,
        length: sc(length),
    }
}

#[test]
fn constants_of_the_links() {
    assert_eq!(sc(0.17).rank(), MAX_LEN);
    assert_eq!(DISCARD_ODDS, 6);
}

#[test]
fn link_hands_out_its_fields() {
    let mut link = link_with_length(0.1);
    link.world_a_pt = pt(0.1, 0.2);
    link.world_b_pt = pt(0.3, 0.4);
    link.mat_a = Material::Snow;
    link.mat_b = Material::Ice;
    assert_eq!(link.length(), sc(0.1));
    assert_eq!(link.get_world_a_pt(), pt(0.1, 0.2));
    assert_eq!(link.get_world_b_pt(), pt(0.3, 0.4));
    assert_eq!(link.get_mat_a(), Material::Snow);
    assert_eq!(link.get_mat_b(), Material::Ice);
}

#[test]
fn inside_slice_looks_at_every_element() {
    let cells = [DPoint2::new(1, 0), DPoint2::new(0, 1), DPoint2::new(2, 1)];
    assert!(inside_slice(&DPoint2::new(1, 0), &cells));
    assert!(inside_slice(&DPoint2::new(2, 1), &cells));
    assert!(!inside_slice(&DPoint2::new(1, 2), &cells));
    assert!(!inside_slice(&DPoint2::new(0, 0), &cells));
    assert!(!inside_slice(&DPoint2::new(1, 0), &[]));
}

#[test]
fn within_any_asks_every_zone() {
    let zones = vec![zone_a(), zone_b(Material::Rock)];
    assert!(within_any(&zones, pt(0.15, 0.2)));
    assert!(within_any(&zones, pt(0.35, 0.3)));
    assert!(!within_any(&zones, pt(0.22, 0.2)));
    assert!(!within_any(&Vec::new(), pt(0.15, 0.2)));
}

#[test]
fn traversible_link_wants_every_probe_clear() {
    let zones = vec![zone_a(), zone_b(Material::Rock)];
    let dry = survey(pt(0.22, 0.2), 0.6);
    let wet = survey(pt(0.23, 0.2), 0.4);
    let in_zone = survey(pt(0.15, 0.2), 0.6);
    assert!(traversible_link(&zones, &Vec::new(), true, &climate()));
    assert!(traversible_link(&zones, &Vec::new(), false, &climate()));
    assert!(traversible_link(&zones, &vec![dry, dry], true, &climate()));
    assert!(!traversible_link(&zones, &vec![dry, wet], true, &climate()));
    assert!(!traversible_link(&zones, &vec![dry], false, &climate()));
    assert!(traversible_link(&zones, &vec![wet, wet], false, &climate()));
    assert!(!traversible_link(&zones, &vec![dry, in_zone], true, &climate()));
    assert!(traversible_link(&Vec::new(), &vec![dry, in_zone], true, &climate()));
}

#[test]
fn previous_link_stays_only_if_strictly_shorter() {
    assert!(!keeps_previous(&None, sc(0.1)));
    assert!(keeps_previous(&Some(link_with_length(0.05)), sc(0.1)));
    assert!(!keeps_previous(&Some(link_with_length(0.1)), sc(0.1)));
    assert!(!keeps_previous(&Some(link_with_length(0.15)), sc(0.1)));
}

#[test]
fn shortest_link_joins_the_nearest_border_samples() {
    let (a, b) = (zone_a(), zone_b(Material::Rock));
    let zones = vec![zone_a(), zone_b(Material::Rock)];
    let found = a.shortest_sample_link(&[], &b, &[], &zones, &climate(), &wider, &no_probes);
    let link = found.unwrap();
    assert_eq!(link.zone_a_coord, DPoint2::new(2, 1));
    assert_eq!(link.zone_b_coord, DPoint2::new(0, 1));
    assert_eq!(link.world_a_pt, a.samples().get(2, 1).pt);
    assert_eq!(link.world_b_pt, b.samples().get(0, 1).pt);
    assert_eq!(link.mat_a, Material::Rock);
    assert_eq!(link.mat_b, Material::Rock);
    assert!(link.land_link);
    assert_eq!(link.length, wider(link.world_a_pt, link.world_b_pt));
    assert!(fl(link.length) <= 0.17);
}

#[test]
fn shortest_link_passes_over_taken_cells() {
    let (a, b) = (zone_a(), zone_b(Material::Rock));
    let zones = vec![zone_a(), zone_b(Material::Rock)];
    let taken = [DPoint2::new(2, 1)];
    assert!(a
        .shortest_sample_link(&taken, &b, &[], &zones, &climate(), &wider, &no_probes)
        .is_none());
    let theirs = [DPoint2::new(0, 1)];
    assert!(a
        .shortest_sample_link(&[], &b, &theirs, &zones, &climate(), &wider, &no_probes)
        .is_none());
}

#[test]
fn shortest_link_never_joins_land_to_water() {
    let (a, b) = (zone_a(), zone_b(Material::Water));
    let zones = vec![zone_a(), zone_b(Material::Water)];
    let near = |_a: CPoint2, _b: CPoint2| sc(0.01);
    assert!(a.shortest_sample_link(&[], &b, &[], &zones, &climate(), &near, &no_probes).is_none());
}

#[test]
fn shortest_link_joins_ice_to_land() {
    let (a, b) = (zone_a(), zone_b(Material::Ice));
    let zones = vec![zone_a(), zone_b(Material::Ice)];
    let link =
        a.shortest_sample_link(&[], &b, &[], &zones, &climate(), &wider, &no_probes).unwrap();
    assert_eq!(link.mat_a, Material::Rock);
    assert_eq!(link.mat_b, Material::Ice);
    assert!(link.land_link);
}

#[test]
fn shortest_link_joins_water_to_water() {
    let a = zone_of((0.1, 0.1), (0.05, 0.1), Material::Water);
    let b = zone_b(Material::Water);
    let zones = vec![zone_of((0.1, 0.1), (0.05, 0.1), Material::Water), zone_b(Material::Water)];
    let link =
        a.shortest_sample_link(&[], &b, &[], &zones, &climate(), &wider, &no_probes).unwrap();
    assert!(!link.land_link);
    assert_eq!(link.mat_a, Material::Water);
    assert_eq!(link.mat_b, Material::Water);
}

#[test]
fn shortest_link_is_not_longer_than_the_limit() {
    let (a, b) = (zone_a(), zone_b(Material::Rock));
    let zones = vec![zone_a(), zone_b(Material::Rock)];
    let too_far = |_a: CPoint2, _b: CPoint2| sc(0.18);
    assert!(a
        .shortest_sample_link(&[], &b, &[], &zones, &climate(), &too_far, &no_probes)
        .is_none());
    let at_limit = |_a: CPoint2, _b: CPoint2| sc(0.17);
    let link = a
        .shortest_sample_link(&[], &b, &[], &zones, &climate(), &at_limit, &no_probes)
        .unwrap();
    assert_eq!(link.length, sc(0.17));
}

#[test]
fn shortest_link_wants_a_free_way() {
    let (a, b) = (zone_a(), zone_b(Material::Rock));
    let zones = vec![zone_a(), zone_b(Material::Rock)];
    let through_water = |_a: CPoint2, _b: CPoint2| vec![survey(pt(0.22, 0.2), 0.4)];
    assert!(a
        .shortest_sample_link(&[], &b, &[], &zones, &climate(), &wider, &through_water)
        .is_none());
    let through_zone = |_a: CPoint2, _b: CPoint2| vec![survey(pt(0.3, 0.2), 0.6)];
    assert!(a
        .shortest_sample_link(&[], &b, &[], &zones, &climate(), &wider, &through_zone)
        .is_none());
    let over_land = |_a: CPoint2, _b: CPoint2| vec![survey(pt(0.22, 0.2), 0.6)];
    assert!(a
        .shortest_sample_link(&[], &b, &[], &zones, &climate(), &wider, &over_land)
        .is_some());
}

#[test]
fn among_equal_candidates_the_last_one_stays() {
    let (a, b) = (zone_a(), zone_b(Material::Rock));
    let zones = vec![zone_a(), zone_b(Material::Rock)];
    let all_equal = |_a: CPoint2, _b: CPoint2| sc(0.1);
    let link = a
        .shortest_sample_link(&[], &b, &[], &zones, &climate(), &all_equal, &no_probes)
        .unwrap();
    assert_eq!(link.zone_a_coord, DPoint2::new(1, 2));
    assert_eq!(link.zone_b_coord, DPoint2::new(1, 2));
}

#[test]
fn a_strictly_shorter_candidate_is_not_replaced() {
    let (a, b) = (zone_a(), zone_b(Material::Rock));
    let zones = vec![zone_a(), zone_b(Material::Rock)];
    let first_pair = (a.samples().get(1, 0).pt, b.samples().get(1, 0).pt);
    let first_is_nearest =
        move |p: CPoint2, q: CPoint2| if (p, q) == first_pair { sc(0.05) } else { sc(0.1) };
    let link = a
        .shortest_sample_link(&[], &b, &[], &zones, &climate(), &first_is_nearest, &no_probes)
        .unwrap();
    assert_eq!(link.zone_a_coord, DPoint2::new(1, 0));
    assert_eq!(link.zone_b_coord, DPoint2::new(1, 0));
    assert_eq!(link.length, sc(0.05));
}

#[test]
fn corners_and_inner_cells_host_no_link() {
    let (a, b) = (zone_a(), zone_b(Material::Rock));
    let zones = vec![zone_a(), zone_b(Material::Rock)];
    let hosts = [DPoint2::new(1, 0), DPoint2::new(0, 1), DPoint2::new(2, 1), DPoint2::new(1, 2)];
    for target in hosts.iter() {
        let wanted = (a.samples().get(target.x as usize, target.y as usize).pt, b.samples().get(1, 0).pt);
        let only = move |p: CPoint2, q: CPoint2| if (p, q) == wanted { sc(0.01) } else { sc(0.1) };
        let link = a
            .shortest_sample_link(&[], &b, &[], &zones, &climate(), &only, &no_probes)
            .unwrap();
        assert_eq!(link.zone_a_coord, *target);
        assert_eq!(link.zone_b_coord, DPoint2::new(1, 0));
    }
    let seen = std::cell::RefCell::new(Vec::new());
    let record = |p: CPoint2, _q: CPoint2| {
        seen.borrow_mut().push(p);
        sc(0.1)
    };
    a.shortest_sample_link(&[], &b, &[], &zones, &climate(), &record, &no_probes);
    let asked = seen.into_inner();
    assert_eq!(asked.len(), 16);
    for y in [0usize, 2].iter() {
        for x in [0usize, 2].iter() {
            assert!(!asked.contains(&a.samples().get(*x, *y).pt));
        }
    }
    assert!(!asked.contains(&a.samples().get(1, 1).pt));
}

#[test]
fn fewer_than_two_zones_have_no_links() {
    let mut rng: Isaac64Rng = SeedableRng::from_seed(&[1u64][..]);
    let none: Vec<Zone> = Vec::new();
    assert!(generate_links_for(&none, &mut rng, &climate(), &wider, &no_probes).is_empty());
    let one = vec![zone_a()];
    assert!(generate_links_for(&one, &mut rng, &climate(), &wider, &no_probes).is_empty());
}

#[test]
fn found_links_are_kept_or_dropped_whole() {
    let zones = vec![zone_a(), zone_b(Material::Rock), zone_of((0.7, 0.7), (0.05, 0.1), Material::Rock)];
    let expected = zones[0]
        .shortest_sample_link(&[], &zones[1], &[], &zones, &climate(), &wider, &no_probes)
        .unwrap();
    let (mut kept, mut dropped) = (0, 0);
    for seed in 0..60u64 {
        let mut rng: Isaac64Rng = SeedableRng::from_seed(&[seed][..]);
        let links = generate_links_for(&zones, &mut rng, &climate(), &wider, &no_probes);
        if links.is_empty() {
            dropped += 1;
        } else {
            assert_eq!(links, vec![expected]);
            kept += 1;
        }
    }
    assert!(kept > dropped);
    assert!(dropped > 0);
}

#[test]
fn no_sample_hosts_two_links() {
    let zones = vec![
        zone_of((0.1, 0.1), (0.01, 0.01), Material::Rock),
        zone_of((0.2, 0.1), (0.01, 0.01), Material::Rock),
        zone_of((0.3, 0.1), (0.01, 0.01), Material::Rock),
        zone_of((0.4, 0.1), (0.01, 0.01), Material::Rock),
    ];
    let all_equal = |_a: CPoint2, _b: CPoint2| sc(0.1);
    let mut most = 0;
    for seed in 0..20u64 {
        let mut rng: Isaac64Rng = SeedableRng::from_seed(&[seed][..]);
        let links = generate_links_for(&zones, &mut rng, &climate(), &all_equal, &no_probes);
        assert!(links.len() <= 6);
        most = most.max(links.len());
        let mut ends = Vec::new();
        for l in links.iter() {
            assert!(l.length().rank() <= MAX_LEN);
            assert_eq!(l.get_mat_a().is_land(), l.get_mat_b().is_land());
            assert!(!ends.contains(&l.world_a_pt));
            ends.push(l.world_a_pt);
            assert!(!ends.contains(&l.world_b_pt));
            ends.push(l.world_b_pt);
        }
    }
    assert!(most >= 4);
}

#[test]
fn visiting_order_is_a_shuffled_run_of_indices() {
    let mut rng: Isaac64Rng = SeedableRng::from_seed(&[3u64][..]);
    let order = visiting_order(&mut rng, 12);
    let mut sorted = order.clone();
    sorted.sort();
    assert_eq!(sorted, (0..12).collect::<Vec<usize>>());
    assert_ne!(order, (0..12).collect::<Vec<usize>>());
    assert!(visiting_order(&mut rng, 0).is_empty());
    assert_eq!(visiting_order(&mut rng, 1), vec![0]);
}

#[test]
fn a_link_is_kept_unless_dropped_or_too_long() {
    assert!(link_is_kept(false, &link_with_length(0.1)));
    assert!(link_is_kept(false, &link_with_length(0.17)));
    assert!(!link_is_kept(true, &link_with_length(0.1)));
    assert!(!link_is_kept(false, &link_with_length(0.18)));
    assert!(!link_is_kept(true, &link_with_length(0.18)));
}
