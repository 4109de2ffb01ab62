use rand::Isaac64Rng;
use rand::Rng;
use rand::SeedableRng;
use worldgen::climate::Band;
use worldgen::climate::Climate;
use worldgen::climate::MaterialCues;
use worldgen::climate::PointSampleData;
use worldgen::grid::TotalGridBuilder;
use worldgen::material::Material;
use worldgen::points::CPoint2;
use worldgen::points::DPoint2;
use worldgen::scalar::Scalar;
use worldgen::zone_gen::charge;
use worldgen::zone_gen::count_walkable;
use worldgen::zone_gen::early_verdict;
use worldgen::zone_gen::sampled_verdict;
use worldgen::zone_gen::generate_zones_for;
use worldgen::zone_gen::out_of_bounds;
use worldgen::zone_gen::overlaps_any;
use worldgen::zone_gen::sample_of;
use worldgen::zone_gen::sample_zone;
use worldgen::zone_gen::zone_extent;
use worldgen::zone_gen::Survey;
use worldgen::zone_gen::ZoneFrame;
use worldgen::zone_gen::ZoneVerdict;
use worldgen::zone_gen::MAP_LIMIT;
use worldgen::zone_gen::MAX_ZONES;
use worldgen::zone_gen::MIN_WALKABLE;
use worldgen::zone_gen::ZONE_BUDGET;
use worldgen::zones::Zone;
use worldgen::zones::ZoneSample;

fn sc(x: f32) -> Scalar {
    Scalar::from_bits(x.to_bits()).unwrap()
}

fn fl(s: Scalar) -> f32 {
    f32::from_bits(s.to_bits())
}

fn pt(x: f32, y: f32) -> CPoint2 {
    CPoint2::new(sc(x), sc(y))
}

fn climate() -> Climate {
    Climate {
        size: sc(0.3),
        water_level: sc(0.5),
        snow_below_temp: sc(0.2),
        trees_reach: sc(0.04),
        grass_reach: sc(0.06),
        grass_within: Band { low: sc(0.1), high: sc(0.2) },
        trees_within: Band { low: sc(0.1), high: sc(0.3) },
    }
}

fn survey_with_height(at: CPoint2, height: f32) -> Survey {
    Survey {
        pt: at,
        data: PointSampleData {
            temp: sc(0.5),
            height: sc(height),
            x_slope: sc(0.0),
            y_slope: sc(0.0),
            slope: sc(0.0),
        },
        cues: MaterialCues { frost_temp: sc(0.52), veg_dist: sc(1.0) },
    }
}

fn sample_with(mat: Material) -> ZoneSample {
    ZoneSample { pt: pt(0.0, 0.0), data: survey_with_height(pt(0.0, 0.0), 0.6).data, mat }
}

fn plain_zone(tl: (f32, f32), br: (f32, f32)) -> Zone {
    let mut builder = TotalGridBuilder::new();
    for _ in 0..9 {
        builder.append(sample_with(Material::Rock));
    }
    Zone::new(
        pt(tl.0, tl.1),
        pt(br.0, br.1),
        pt(tl.0, tl.1),
        pt(br.0, br.1),
        builder.finalize(DPoint2::new(3, 3)).unwrap(),
    )
}

fn scatter(seed: u64, step: f32, land_above: f32) -> Vec<Zone> {
    let mut rng: Isaac64Rng = SeedableRng::from_seed(&[seed][..]);
    let corner = |rng: &mut Isaac64Rng| {
        let x = rng.gen::<f32>() * 0.9 + 0.05;
        let y = rng.gen::<f32>() * 0.9 + 0.05;
        pt(x, y)
    };
    let frame = |tl: CPoint2, dims: DPoint2| {
        let br = pt(fl(tl.x) + (dims.x - 1) as f32 * step, fl(tl.y) + (dims.y - 1) as f32 * step * 2.0);
        ZoneFrame { br, core_tl: tl, core_br: br }
    };
    let survey = |tl: CPoint2, cell: DPoint2| {
        let at = pt(fl(tl.x) + cell.x as f32 * step, fl(tl.y) + cell.y as f32 * step * 2.0);
        let height = if fl(at.x) > land_above { 0.6 } else { 0.4 };
        survey_with_height(at, height)
    };
    generate_zones_for(&climate(), &mut rng, &corner, &frame, &survey)
}

#[test]
fn constants_of_the_search() {
    assert_eq!(ZONE_BUDGET, 500);
    assert_eq!(MIN_WALKABLE, 5);
    assert_eq!(MAX_ZONES, 21);
    assert_eq!(sc(0.95).rank(), MAP_LIMIT);
}

#[test]
fn zone_extent_is_three_to_five() {
    assert_eq!(zone_extent(0), 3);
    assert_eq!(zone_extent(1), 4);
    assert_eq!(zone_extent(2), 5);
    assert_eq!(zone_extent(3), 3);
    assert_eq!(zone_extent(200), 5);
    assert_eq!(zone_extent(255), 3);
    for raw in 0..=255u8 {
        assert_eq!(zone_extent(raw), (raw % 3) as i32 + 3);
    }
}

#[test]
fn out_of_bounds_starts_above_the_limit() {
    let just_above = f32::from_bits(0.95f32.to_bits() + 1);
    assert!(!out_of_bounds(pt(0.95, 0.95)));
    assert!(!out_of_bounds(pt(0.2, 0.3)));
    assert!(out_of_bounds(pt(just_above, 0.3)));
    assert!(out_of_bounds(pt(0.3, just_above)));
    assert!(out_of_bounds(pt(0.96, 0.96)));
    assert!(!out_of_bounds(pt(-1.0, 0.5)));
}

#[test]
fn charge_for_a_proposal_that_was_not_sampled() {
    for count in [0usize, 3, 5, 7, 21].iter() {
        assert_eq!(charge(ZoneVerdict::OutOfBounds, *count), 1);
        assert_eq!(charge(ZoneVerdict::Overlap, *count), 7);
    }
}

#[test]
fn charge_for_a_barren_proposal() {
    assert_eq!(charge(ZoneVerdict::Barren, 0), 2);
    assert_eq!(charge(ZoneVerdict::Barren, 2), 2);
    assert_eq!(charge(ZoneVerdict::Barren, 3), 4);
    assert_eq!(charge(ZoneVerdict::Barren, 4), 4);
    assert_eq!(charge(ZoneVerdict::Barren, 5), 8);
    assert_eq!(charge(ZoneVerdict::Barren, 6), 8);
    assert_eq!(charge(ZoneVerdict::Barren, 7), 18);
    assert_eq!(charge(ZoneVerdict::Barren, 20), 18);
}

#[test]
fn charge_for_an_accepted_zone() {
    assert_eq!(charge(ZoneVerdict::Accepted, 1), 2);
    assert_eq!(charge(ZoneVerdict::Accepted, 2), 3);
    assert_eq!(charge(ZoneVerdict::Accepted, 3), 6);
    assert_eq!(charge(ZoneVerdict::Accepted, 4), 7);
    assert_eq!(charge(ZoneVerdict::Accepted, 5), 12);
    assert_eq!(charge(ZoneVerdict::Accepted, 6), 13);
    assert_eq!(charge(ZoneVerdict::Accepted, 7), 24);
    assert_eq!(charge(ZoneVerdict::Accepted, 21), 38);
}

#[test]
fn budget_pays_for_twenty_one_zones_at_most() {
    let mut spent: i32 = 0;
    let mut count = 0usize;
    while spent < ZONE_BUDGET as i32 {
        count += 1;
        spent += charge(ZoneVerdict::Accepted, count) as i32;
    }
    assert_eq!(count, MAX_ZONES);
    assert_eq!(spent, 508);
}

#[test]
fn overlaps_any_asks_every_zone() {
    let zones = vec![plain_zone((0.1, 0.1), (0.2, 0.2)), plain_zone((0.5, 0.5), (0.6, 0.6))];
    assert!(overlaps_any(&zones, (pt(0.15, 0.15), pt(0.3, 0.3))));
    assert!(overlaps_any(&zones, (pt(0.55, 0.4), pt(0.7, 0.5))));
    assert!(!overlaps_any(&zones, (pt(0.25, 0.25), pt(0.45, 0.45))));
    assert!(!overlaps_any(&Vec::new(), (pt(0.0, 0.0), pt(1.0, 1.0))));
}

#[test]
fn count_walkable_leaves_out_water_and_ice() {
    let mats = [
        Material::Rock,
        Material::Water,
        Material::Ice,
        Material::Snow,
        Material::Trees,
        Material::Water,
        Material::Grass,
        Material::DarkRock,
        Material::Ice,
    ];
    let mut builder = TotalGridBuilder::new();
    for m in mats.iter() {
        builder.append(sample_with(*m));
    }
    let grid = builder.finalize(DPoint2::new(3, 3)).unwrap();
    assert_eq!(count_walkable(&grid), 5);
    let empty: TotalGridBuilder<ZoneSample> = TotalGridBuilder::new();
    assert_eq!(count_walkable(&empty.finalize(DPoint2::new(0, 0)).unwrap()), 0);
}

#[test]
fn sample_of_classifies_what_was_found() {
    let wet = sample_of(&climate(), &survey_with_height(pt(0.1, 0.2), 0.4));
    assert_eq!(wet.mat, Material::Water);
    assert_eq!(wet.pt, pt(0.1, 0.2));
    assert_eq!(wet.data.height, sc(0.4));
    let dry = sample_of(&climate(), &survey_with_height(pt(0.3, 0.4), 0.6));
    assert_eq!(dry.mat, Material::Rock);
}

#[test]
fn sample_zone_asks_row_by_row() {
    let survey = |tl: CPoint2, cell: DPoint2| {
        survey_with_height(
            pt(fl(tl.x) + cell.x as f32, fl(tl.y) + cell.y as f32),
            if cell.x == 0 { 0.4 } else { 0.6 },
        )
    };
    let grid = sample_zone(&climate(), pt(10.0, 20.0), DPoint2::new(3, 4), &survey);
    assert_eq!(grid.get_dimensions(), DPoint2::new(3, 4));
    for y in 0..4usize {
        for x in 0..3usize {
            let sample = grid.get(x, y);
            assert_eq!(sample.pt, pt(10.0 + x as f32, 20.0 + y as f32));
            assert_eq!(sample.mat, if x == 0 { Material::Water } else { Material::Rock });
        }
    }
    assert_eq!(count_walkable(&grid), 8);
}

#[test]
fn scattered_zones_never_overlap() {
    let mut total = 0;
    for seed in 0..50u64 {
        let zones = scatter(seed, 0.03, -1.0);
        total += zones.len();
        assert!(zones.len() <= MAX_ZONES);
        for i in 0..zones.len() {
            for j in 0..zones.len() {
                if i != j {
                    assert!(!zones[i].overlaps_with((zones[j].tl(), zones[j].br())));
                }
            }
        }
    }
    assert!(total > 50);
}

#[test]
fn scattered_zones_are_settled() {
    for seed in 0..20u64 {
        for zone in scatter(seed, 0.04, 0.5).iter() {
            let (w, h) = (zone.get_samples_per_row(), zone.get_samples_per_col());
            assert!(3 <= w && w <= 5);
            assert!(3 <= h && h <= 5);
            assert!(!out_of_bounds(zone.br()));
            assert!(count_walkable(zone.samples()) >= MIN_WALKABLE);
            assert_eq!(fl(zone.br().x), fl(zone.tl().x) + (w - 1) as f32 * 0.04);
            assert_eq!(fl(zone.br().y), fl(zone.tl().y) + (h - 1) as f32 * 0.04 * 2.0);
            for y in 0..h {
                for x in 0..w {
                    let sample = zone.samples().get(x as usize, y as usize);
                    assert_eq!(fl(sample.pt.x), fl(zone.tl().x) + x as f32 * 0.04);
                    assert_eq!(fl(sample.pt.y), fl(zone.tl().y) + y as f32 * 0.04 * 2.0);
                    let dry = fl(sample.pt.x) > 0.5;
                    assert_eq!(sample.mat, if dry { Material::Rock } else { Material::Water });
                }
            }
        }
    }
}

#[test]
fn same_seed_scatters_the_same_zones() {
    let a = scatter(5, 0.03, -1.0);
    let b = scatter(5, 0.03, -1.0);
    let c = scatter(6, 0.03, -1.0);
    assert_eq!(a.len(), b.len());
    assert!(!a.is_empty());
    for i in 0..a.len() {
        assert_eq!(a[i].tl(), b[i].tl());
        assert_eq!(a[i].br(), b[i].br());
        assert_eq!(a[i].samples().get_dimensions(), b[i].samples().get_dimensions());
    }
    assert!(a.len() != c.len() || a[0].tl() != c[0].tl());
}

#[test]
fn a_map_under_water_has_no_zones() {
    for seed in 0..5u64 {
        assert!(scatter(seed, 0.03, 2.0).is_empty());
    }
}

#[test]
fn zones_too_large_for_the_map_are_never_taken() {
    for seed in 0..5u64 {
        assert!(scatter(seed, 0.5, -1.0).is_empty());
    }
}

#[test]
fn early_verdict_tries_the_bounds_first() {
    let zones = vec![plain_zone((0.1, 0.1), (0.2, 0.2)), plain_zone((0.5, 0.5), (0.6, 0.6))];
    assert_eq!(early_verdict(&zones, pt(0.3, 0.3), pt(0.4, 0.4)), None);
    assert_eq!(early_verdict(&zones, pt(0.15, 0.15), pt(0.3, 0.3)), Some(ZoneVerdict::Overlap));
    assert_eq!(early_verdict(&zones, pt(0.9, 0.3), pt(0.96, 0.4)), Some(ZoneVerdict::OutOfBounds));
    assert_eq!(early_verdict(&zones, pt(0.55, 0.55), pt(0.96, 0.96)), Some(ZoneVerdict::OutOfBounds));
    assert_eq!(early_verdict(&Vec::new(), pt(0.15, 0.15), pt(0.3, 0.3)), None);
}

#[test]
fn sampled_verdict_wants_five_walkable_samples() {
    for walkable in 0..=9usize {
        let mut builder = TotalGridBuilder::new();
        for i in 0..9usize {
            builder.append(sample_with(if i < walkable { Material::Grass } else { Material::Ice }));
        }
        let grid = builder.finalize(DPoint2::new(3, 3)).unwrap();
        let expected = if walkable >= 5 { ZoneVerdict::Accepted } else { ZoneVerdict::Barren };
        assert_eq!(sampled_verdict(&grid), expected);
    }
}
