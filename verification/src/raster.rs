use vstd::prelude::*;
use crate::links::WorldLink;
use crate::material::Material;
use crate::points::CPoint2;
use crate::scalar::Scalar;
use crate::world::World;
use crate::zones::Zone;

verus! {

/// Rank of 0.0000001: distances below this count as this.
pub const LEAST_REACH: i32 = 0x33d6_bf95;

/// Rank of 1.0: the brightest that a colour channel gets.
pub const FULL: i32 = 0x3f80_0000;

/// The distance by which the allowance of a link is set, given how far the
/// point is from each end: the lesser of the two, but no less than
/// [`LEAST_REACH`].
pub open spec fn spec_reach_floor(to_a: Scalar, to_b: Scalar) -> int {
    let lesser = if to_a@ < to_b@ {
        to_a@
    } else {
        to_b@
    };
    if lesser < LEAST_REACH {
        LEAST_REACH as int
    } else {
        lesser
    }
}

/// The distance by which the allowance of a link is set, given how far the
/// point is from each end.
pub fn reach_floor(to_a: Scalar, to_b: Scalar) -> (r: Scalar)
    ensures
        r@ == spec_reach_floor(to_a, to_b),
{
    to_a.min(to_b).max(Scalar::of_rank(LEAST_REACH))
}

/// A colour channel bounded to what a pixel can show: 0 below 0, 1 above 1,
/// and otherwise as it is.
pub open spec fn spec_px_bound(x: Scalar) -> int {
    if x@ < 0 {
        0
    } else if x@ > FULL {
        FULL as int
    } else {
        x@
    }
}

/// A colour channel bounded to what a pixel can show.
pub fn px_bound(x: Scalar) -> (r: Scalar)
    ensures
        r@ == spec_px_bound(x),
        0 <= r@ <= FULL,
{
    x.max(Scalar::zero()).min(Scalar::of_rank(FULL))
}

/// How a point lies to a link: the four distances that decide whether the
/// link passes through it, and which end is nearer.
#[derive(Copy, Clone, Debug, PartialEq, Eq, Structural)]
pub struct LinkReach {
    /// From the first end to the point and on to the second end.
    pub detour: Scalar,
    /// The length of the link with what a detour may add to it.
    pub allowance: Scalar,
    /// From the first end to the point.
    pub to_a: Scalar,
    /// From the second end to the point.
    pub to_b: Scalar,
}

impl LinkReach {
    /// Whether the link passes through the point: the detour over the point
    /// is within the allowance.
    pub open spec fn spec_claims(self) -> bool {
        self.detour@ <= self.allowance@
    }

    /// Whether the first end is strictly nearer to the point than the second.
    pub open spec fn spec_nearer_a(self) -> bool {
        self.to_a@ < self.to_b@
    }

    /// Whether the link passes through the point.
    pub fn claims(&self) -> (r: bool)
        ensures
            r == self.spec_claims(),
    {
        self.detour.le(&self.allowance)
    }

    /// Whether the first end is strictly nearer to the point than the second.
    pub fn nearer_a(&self) -> (r: bool)
        ensures
            r == self.spec_nearer_a(),
    {
        self.to_a.lt(&self.to_b)
    }
}

/// What a pixel of the map shows.
#[derive(Copy, Clone, Debug, PartialEq, Eq)]
pub enum PixelSource {
    /// A link passes through; the material is that of its nearer end.
    Link { material: Material },
    /// The rim of a zone, in the marker colour of the zone.
    ZoneRim { zone: usize, color: [u8; 3] },
    /// Neither: the terrain itself.
    Terrain,
}

/// The marker colour of the zone with a given index: full red, and a green
/// and a blue that step with the index and wrap at 256.
pub open spec fn spec_zone_marker(zone: int) -> Seq<u8> {
    seq![255u8, (((zone % 256) * 21 + 200) % 256) as u8, (((zone % 256) * 31) % 256) as u8]
}

/// The marker colour of the zone with index `zone`.
pub fn zone_marker(zone: usize) -> (color: [u8; 3])
    ensures
        color@ == spec_zone_marker(zone as int),
{
    let low: usize = zone % 256;
    let color = [255u8, ((low * 21 + 200) % 256) as u8, ((low * 31) % 256) as u8];
    proof {
        assert(color@ =~= spec_zone_marker(zone as int));
    }
    color
}

/// The material that a link shows at a point that it passes through: that
/// of its first end if that end is strictly nearer, else that of its second.
pub open spec fn spec_link_material(link: WorldLink, reach: LinkReach) -> Material {
    if reach.spec_nearer_a() {
        link.mat_a
    } else {
        link.mat_b
    }
}

/// Whether none of the first `count` links passes through the point.
pub open spec fn spec_unclaimed(reaches: Seq<LinkReach>, count: int) -> bool {
    forall|k: int| 0 <= k < count ==> !(#[trigger] reaches[k]).spec_claims()
}

/// Whether the point lies on the rim of none of the first `count` zones.
pub open spec fn spec_off_rims(zones: Seq<Zone>, count: int, pt: CPoint2) -> bool {
    forall|z: int| 0 <= z < count ==> !(#[trigger] zones[z]).spec_barely_within(pt)
}

impl World {
    /// What the pixel at `pt` shows, given how the point lies to each link:
    /// `reaches` holds that for the links in their order, and a link without
    /// an entry passes through no point.
    ///
    /// The first link that passes through the point decides, with the
    /// material of its nearer end; else the first zone on whose rim the
    /// point lies, with its marker colour; else the terrain.
    pub fn pixel_source(&self, pt: CPoint2, reaches: &Vec<LinkReach>) -> (source: PixelSource)
        ensures
            match source {
                PixelSource::Link { material } => exists|k: int|
                    {
                        &&& 0 <= k < self.spec_links().len()
                        &&& k < reaches@.len()
                        &&& (#[trigger] reaches@[k]).spec_claims()
                        &&& spec_unclaimed(reaches@, k)
                        &&& material == spec_link_material(self.spec_links()[k], reaches@[k])
                    },
                PixelSource::ZoneRim { zone, color } => {
                    &&& forall|k: int|
                        0 <= k < self.spec_links().len() && k < reaches@.len() ==> !(
                        #[trigger] reaches@[k]).spec_claims()
                    &&& zone < self.spec_zones().len()
                    &&& self.spec_zones()[zone as int].spec_barely_within(pt)
                    &&& spec_off_rims(self.spec_zones(), zone as int, pt)
                    &&& color@ == spec_zone_marker(zone as int)
                },
                PixelSource::Terrain => {
                    &&& forall|k: int|
                        0 <= k < self.spec_links().len() && k < reaches@.len() ==> !(
                        #[trigger] reaches@[k]).spec_claims()
                    &&& spec_off_rims(self.spec_zones(), self.spec_zones().len() as int, pt)
                },
            },
    {
        let links = self.links();
        let zones = self.zones();
        let mut k: usize = 0;
        while k < links.len() && k < reaches.len()
            invariant
                links@ == self.spec_links(),
                0 <= k <= self.spec_links().len(),
                k <= reaches@.len(),
                spec_unclaimed(reaches@, k as int),
            decreases self.spec_links().len() - k,
        {
            if reaches[k].claims() {
                let material = if reaches[k].nearer_a() {
                    links[k].get_mat_a()
                } else {
                    links[k].get_mat_b()
                };
                proof {
                    assert(reaches@[k as int].spec_claims());
                }
                return PixelSource::Link { material };
            }
            k = k + 1;
        }
        let mut z: usize = 0;
        while z < zones.len()
            invariant
                zones@ == self.spec_zones(),
                0 <= z <= self.spec_zones().len(),
                spec_off_rims(self.spec_zones(), z as int, pt),
                forall|k: int|
                    0 <= k < self.spec_links().len() && k < reaches@.len() ==> !(
                    #[trigger] reaches@[k]).spec_claims(),
            decreases self.spec_zones().len() - z,
        {
            if zones[z].barely_within(pt) {
                return PixelSource::ZoneRim { zone: z, color: zone_marker(z) };
            }
            z = z + 1;
        }
        PixelSource::Terrain
    }
}

/// Number of bytes of a frame `pix_height` pixels high: four for each pixel,
/// and twice as many pixels in a row as there are rows.
pub open spec fn spec_frame_len(pix_height: u32) -> int {
    4 * ((2 * pix_height) * pix_height)
}

/// Whether `buffer` holds at pixel `(x, y)` of a frame `width` pixels wide
/// a colour that `pixel` answered for it, and full opacity.
pub open spec fn spec_pixel_framed<F: Fn(u32, u32) -> [u8; 3]>(
    pixel: &F,
    buffer: Seq<u8>,
    width: int,
    x: int,
    y: int,
) -> bool {
    let at = 4 * (y * width + x);
    exists|color: [u8; 3]| #[trigger]
        pixel.ensures((x as u32, y as u32), color) && buffer[at] == color@[0] && buffer[at + 1]
            == color@[1] && buffer[at + 2] == color@[2] && buffer[at + 3] == 255
}

/// Whether a frame `pix_height` pixels high can be laid out: its width is a
/// 32-bit number and its bytes can be counted.
pub open spec fn spec_frame_fits(pix_height: u32) -> bool {
    2 * pix_height <= u32::MAX && spec_frame_len(pix_height) <= usize::MAX
}

/// Whether a frame `pix_height` pixels high can be laid out.
pub fn frame_fits(pix_height: u32) -> (r: bool)
    ensures
        r == spec_frame_fits(pix_height),
{
    if pix_height > u32::MAX / 2 {
        return false;
    }
    let height = pix_height as u128;
    assert((2 * height) * height <= 0x1_0000_0000 * 0x1_0000_0000) by (nonlinear_arith)
        requires
            0 <= height <= 0x8000_0000,
    ;
    4 * ((2 * height) * height) <= usize::MAX as u128
}

/// Lays out a frame `pix_height` pixels high and twice as wide: row by row,
/// for each pixel the three bytes that `pixel` answers for its column and
/// row, then a byte 255 for full opacity.
pub fn rgba_frame<F: Fn(u32, u32) -> [u8; 3]>(pix_height: u32, pixel: &F) -> (buffer: Vec<u8>)
    requires
        spec_frame_fits(pix_height),
        forall|x: u32, y: u32|
            x < 2 * pix_height && y < pix_height ==> #[trigger] pixel.requires((x, y)),
    ensures
        buffer@.len() == spec_frame_len(pix_height),
        forall|x: int, y: int|
            0 <= x < 2 * pix_height && 0 <= y < pix_height ==> #[trigger] spec_pixel_framed(
                pixel,
                buffer@,
                2 * pix_height,
                x,
                y,
            ),
{
    let pix_width: u32 = pix_height * 2;
    let mut pixels: Vec<u8> = Vec::new();
    let ghost width = pix_width as int;
    let mut y: u32 = 0;
    while y < pix_height
        invariant
            pix_width == 2 * pix_height,
            width == pix_width,
            0 <= y <= pix_height,
            pixels@.len() == 4 * (y * width),
            forall|x: u32, y: u32|
                x < 2 * pix_height && y < pix_height ==> #[trigger] pixel.requires((x, y)),
            forall|i: int, j: int|
                0 <= i < width && 0 <= j < y ==> #[trigger] spec_pixel_framed(
                    pixel,
                    pixels@,
                    width,
                    i,
                    j,
                ),
        decreases pix_height - y,
    {
        let mut x: u32 = 0;
        while x < pix_width
            invariant
                pix_width == 2 * pix_height,
                width == pix_width,
                0 <= y < pix_height,
                0 <= x <= pix_width,
                pixels@.len() == 4 * (y * width + x),
                forall|x: u32, y: u32|
                x < 2 * pix_height && y < pix_height ==> #[trigger] pixel.requires((x, y)),
                forall|i: int, j: int|
                    0 <= i < width && 0 <= j < y ==> #[trigger] spec_pixel_framed(
                        pixel,
                        pixels@,
                        width,
                        i,
                        j,
                    ),
                forall|i: int|
                    0 <= i < x ==> #[trigger] spec_pixel_framed(pixel, pixels@, width, i, y as int),
            decreases pix_width - x,
        {
            let ghost before = pixels@;
            let color = pixel(x, y);
            pixels.push(color[0]);
            pixels.push(color[1]);
            pixels.push(color[2]);
            pixels.push(255);
            proof {
                let at = 4 * (y * width + x);
                assert(0 <= y * width) by (nonlinear_arith)
                    requires
                        0 <= y,
                        0 <= width,
                ;
                assert forall|i: int, j: int| 0 <= i < width && 0 <= j < y implies #[trigger] spec_pixel_framed(
                    pixel,
                    pixels@,
                    width,
                    i,
                    j,
                ) by {
                    assert(spec_pixel_framed(pixel, before, width, i, j));
                    assert(j * width + i < y * width) by (nonlinear_arith)
                        requires
                            0 <= i < width,
                            0 <= j < y,
                    {
                        assert((j + 1) * width <= y * width);
                    }
                    assert(0 <= j * width) by (nonlinear_arith)
                        requires
                            0 <= j,
                            0 <= width,
                    ;
                    lemma_frame_kept(pixel, before, pixels@, width, i, j);
                }
                assert forall|i: int| 0 <= i < x + 1 implies #[trigger] spec_pixel_framed(
                    pixel,
                    pixels@,
                    width,
                    i,
                    y as int,
                ) by {
                    if i < x {
                        assert(spec_pixel_framed(pixel, before, width, i, y as int));
                        lemma_frame_kept(pixel, before, pixels@, width, i, y as int);
                    } else {
                        assert(pixels@[at] == color@[0]);
                        assert(pixels@[at + 1] == color@[1]);
                        assert(pixels@[at + 2] == color@[2]);
                        assert(pixels@[at + 3] == 255);
                        assert(i as u32 == x && (y as int) as u32 == y);
                        assert(pixel.ensures((i as u32, (y as int) as u32), color));
                    }
                }
            }
            x = x + 1;
        }
        proof {
            assert((y + 1) * width == y * width + width) by (nonlinear_arith);
        }
        y = y + 1;
    }
    proof {
        assert(4 * (pix_height * width) == spec_frame_len(pix_height)) by (nonlinear_arith)
            requires
                width == 2 * pix_height,
        ;
    }
    pixels
}

/// A pixel that is framed in a buffer stays framed when bytes are added
/// behind it.
proof fn lemma_frame_kept<F: Fn(u32, u32) -> [u8; 3]>(
    pixel: &F,
    before: Seq<u8>,
    after: Seq<u8>,
    width: int,
    x: int,
    y: int,
)
    requires
        spec_pixel_framed(pixel, before, width, x, y),
        0 <= 4 * (y * width + x),
        4 * (y * width + x) + 3 < before.len(),
        before.is_prefix_of(after),
    ensures
        spec_pixel_framed(pixel, after, width, x, y),
{
    let at = 4 * (y * width + x);
    let color = choose|color: [u8; 3]| #[trigger]
        pixel.ensures((x as u32, y as u32), color) && before[at] == color@[0] && before[at + 1]
            == color@[1] && before[at + 2] == color@[2] && before[at + 3] == 255;
    assert(after[at] == before[at]);
    assert(after[at + 1] == before[at + 1]);
    assert(after[at + 2] == before[at + 2]);
    assert(after[at + 3] == before[at + 3]);
}

} // verus!
