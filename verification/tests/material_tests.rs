use worldgen::material::Material;
use worldgen::material::Shading;

fn all() -> Vec<Material> {
    vec![
        Material::Rock,
        Material::Trees,
        Material::Grass,
        Material::Water,
        Material::Ice,
        Material::Snow,
        Material::DarkRock,
    ]
}

#[test]
fn only_water_is_not_land() {
    for m in all() {
        assert_eq!(m.is_land(), m != Material::Water);
    }
    assert!(Material::Ice.is_land());
    assert!(!Material::Water.is_land());
}

#[test]
fn water_and_ice_are_not_walkable() {
    for m in all() {
        assert_eq!(m.is_walkable(), m != Material::Water && m != Material::Ice);
    }
}

#[test]
fn links_join_like_with_like() {
    for a in all() {
        for b in all() {
            assert_eq!(a.allow_link_to(b), a.is_land() == b.is_land());
            assert_eq!(a.allow_link_to(b), b.allow_link_to(a));
        }
    }
    assert!(Material::Water.allow_link_to(Material::Water));
    assert!(!Material::Water.allow_link_to(Material::Ice));
    assert!(Material::Ice.allow_link_to(Material::Rock));
    assert!(!Material::Rock.allow_link_to(Material::Water));
}

#[test]
fn depth_darkens_water_and_ice() {
    for m in all() {
        let by_depth = m == Material::Water || m == Material::Ice;
        assert_eq!(m.shading(), if by_depth { Shading::ByDepth } else { Shading::BySlope });
    }
}
