use worldgen::climate::Band;
use worldgen::climate::Climate;
use worldgen::scalar::Scalar;
use worldgen::surface::nearer_pole;
use worldgen::surface::slope_looks_back;
use worldgen::surface::Pole;
use worldgen::surface::AZIMUTH_MULT;
use worldgen::surface::BOTTOM;
use worldgen::surface::EQUATOR;

fn sc(x: f32) -> Scalar {
    Scalar::from_bits(x.to_bits()).unwrap()
}

#[test]
fn latitudes_are_the_ranks_of_their_numbers() {
    assert_eq!(sc(0.5).rank(), EQUATOR);
    assert_eq!(sc(1.0).rank(), BOTTOM);
    assert_eq!(sc(1.0 - 0.006).rank(), AZIMUTH_MULT);
}

#[test]
fn nearer_pole_changes_at_the_equator() {
    assert_eq!(nearer_pole(sc(0.0)), Some(Pole::Top));
    assert_eq!(nearer_pole(sc(-0.0)), Some(Pole::Top));
    assert_eq!(nearer_pole(sc(0.25)), Some(Pole::Top));
    assert_eq!(nearer_pole(sc(0.49999997)), Some(Pole::Top));
    assert_eq!(nearer_pole(sc(0.5)), Some(Pole::Bottom));
    assert_eq!(nearer_pole(sc(0.75)), Some(Pole::Bottom));
    assert_eq!(nearer_pole(sc(1.0)), Some(Pole::Bottom));
}

#[test]
fn latitudes_off_the_map_have_no_pole() {
    assert_eq!(nearer_pole(sc(-0.000001)), None);
    assert_eq!(nearer_pole(sc(1.0000001)), None);
    assert_eq!(nearer_pole(sc(-3.0)), None);
    assert_eq!(nearer_pole(sc(7.0)), None);
    assert_eq!(nearer_pole(sc(f32::INFINITY)), None);
    assert_eq!(nearer_pole(sc(f32::NEG_INFINITY)), None);
}

#[test]
fn slope_looks_back_near_the_bottom_pole() {
    assert!(!slope_looks_back(sc(0.0)));
    assert!(!slope_looks_back(sc(0.5)));
    assert!(!slope_looks_back(sc(0.99)));
    assert!(slope_looks_back(sc(1.0 - 0.006)));
    assert!(slope_looks_back(sc(0.995)));
    assert!(slope_looks_back(sc(1.0)));
    for i in 0..=1000 {
        let y = i as f32 / 1000.0;
        assert_eq!(slope_looks_back(sc(y)), !(y < 1.0 - 0.006));
    }
}

#[test]
fn detail_shows_above_the_water_level() {
    let climate = Climate {
        size: sc(0.3),
        water_level: sc(0.5),
        snow_below_temp: sc(0.2),
        trees_reach: sc(0.04),
        grass_reach: sc(0.06),
        grass_within: Band { low: sc(0.1), high: sc(0.2) },
        trees_within: Band { low: sc(0.1), high: sc(0.3) },
    };
    assert!(climate.shows_detail(sc(0.50000006)));
    assert!(climate.shows_detail(sc(0.9)));
    assert!(!climate.shows_detail(sc(0.5)));
    assert!(!climate.shows_detail(sc(0.1)));
}
