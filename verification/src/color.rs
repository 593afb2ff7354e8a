//! Indexed colors, palettes and materials, and the illumination-to-shade
//! quantization. Illumination is carried as a fixed-point scalar in units of
//! 1/256 (so `256` is full illumination `1.0`); the quantizer reproduces the
//! exponential bucketing `floor(2^(3 * clamp(v, 0, 1)))` exactly on that
//! grid, via precomputed thresholds.

use vstd::arithmetic::power::{lemma1_pow, lemma_pow1, lemma_pow_adds, lemma_pow_increases,
    lemma_pow_multiplies, lemma_pow_positive, lemma_pow_strictly_increases, pow};
use vstd::prelude::*;

verus! {

/// Map of color indices to displayable RGB values.
#[derive(Debug, Clone, Copy)]
pub struct Palette {
    pub colors: [u32; 32],
}

/// A surface's light response: a ramp of palette indices, indexed by the
/// quantized illumination bucket.
#[derive(Debug, Clone, Copy)]
pub struct Material {
    pub shades: [u8; 9],
}

/// The named colors of the default palette, in palette order.
#[derive(Debug, Clone, Copy, PartialEq, Eq, Structural)]
pub enum Color {
    Black,
    Blue0,
    Blue1,
    Blue2,
    Blue3,
    Blue4,
    Blue5,
    Blue6,
    White,
    Purple,
    Pink0,
    Pink1,
    Red,
    Coral,
    Orange,
    Brown0,
    Brown1,
    Brown2,
    Dijon,
    Avacado,
    Yellow,
    Green0,
    Green1,
    Green2,
    Aqua0,
    Aqua1,
    Aqua2,
    Cyan0,
    Cyan1,
    Cyan2,
    Pink2,
    Pink3,
}

/// An illumination scalar clamped into the unit range `[0, 256]`.
pub open spec fn clamp_unit(v: int) -> int {
    if v < 0 {
        0
    } else if v > 256 {
        256
    } else {
        v
    }
}

/// The shade bucket `floor(2^(3 * m / 256))` of a clamped illumination `m`.
/// The thresholds are the least `m` with `2^(3 * m / 256) >= k`, that is
/// `ceil(256 * log2(k) / 3)` for each bucket `k`; the bucket saturates at 8
/// (reached only at full illumination, since `2^3 == 8`).
pub open spec fn shade_bucket(v: int) -> int {
    let m = clamp_unit(v);
    if m < 86 {
        1
    } else if m < 136 {
        2
    } else if m < 171 {
        3
    } else if m < 199 {
        4
    } else if m < 221 {
        5
    } else if m < 240 {
        6
    } else if m < 256 {
        7
    } else {
        8
    }
}

/// Quantize an illumination scalar (units of 1/256) into its shade bucket.
pub fn shade_bucket_of(value: i64) -> (r: u8)
    ensures
        r == shade_bucket(value as int),
        1 <= r <= 8,
{
    let m = if value < 0 {
        0
    } else if value > 256 {
        256
    } else {
        value
    };
    if m < 86 {
        1
    } else if m < 136 {
        2
    } else if m < 171 {
        3
    } else if m < 199 {
        4
    } else if m < 221 {
        5
    } else if m < 240 {
        6
    } else if m < 256 {
        7
    } else {
        8
    }
}

/// The grayscale ramp: bucket to default-palette color.
pub open spec fn spec_grayscale(v: int) -> Color {
    let b = shade_bucket(v);
    if b == 0 {
        Color::Black
    } else if b == 1 {
        Color::Blue0
    } else if b == 2 {
        Color::Blue1
    } else if b == 3 {
        Color::Blue2
    } else if b == 4 {
        Color::Blue3
    } else if b == 5 {
        Color::Blue4
    } else if b == 6 {
        Color::Blue5
    } else if b == 7 {
        Color::Blue6
    } else {
        Color::White
    }
}

/// Convert an illumination scalar (units of 1/256, clamped into the unit
/// range) to a grayscale indexed color. Overflowing values are white.
pub fn grayscale(value: i64) -> (r: Color)
    ensures
        r == spec_grayscale(value as int),
{
    let b = shade_bucket_of(value);
    if b == 0 {
        Color::Black
    } else if b == 1 {
        Color::Blue0
    } else if b == 2 {
        Color::Blue1
    } else if b == 3 {
        Color::Blue2
    } else if b == 4 {
        Color::Blue3
    } else if b == 5 {
        Color::Blue4
    } else if b == 6 {
        Color::Blue5
    } else if b == 7 {
        Color::Blue6
    } else {
        Color::White
    }
}

/// A material is valid when every shade-ramp entry is a palette index.
pub open spec fn material_ok(m: Material) -> bool {
    forall|i: int| 0 <= i < 9 ==> (#[trigger] m.shades@[i]) < 32
}

/// The lit palette index: the material's shade-ramp entry at the
/// illumination's bucket.
pub open spec fn spec_lit_color(v: int, m: Material) -> u8 {
    m.shades@[shade_bucket(v)]
}

/// Convert an illumination scalar and a material to the lit palette index:
/// the material's shade-ramp entry of the illumination's bucket.
pub fn lit_color(value: i64, base_color: Material) -> (r: u8)
    ensures
        r == spec_lit_color(value as int, base_color),
        material_ok(base_color) ==> r < 32,
{
    let b = shade_bucket_of(value);
    base_color.shades[b as usize]
}

/// The fixed per-base-color ramps of the legacy shading path.
pub open spec fn spec_lit_color_old(v: int, base_color: Color) -> Color {
    let b = shade_bucket(v);
    if base_color == Color::Red {
        if b == 0 {
            Color::Brown0
        } else if b == 1 {
            Color::Purple
        } else if b == 2 {
            Color::Pink0
        } else if 3 <= b <= 6 {
            Color::Red
        } else if b == 7 {
            Color::Coral
        } else {
            Color::Orange
        }
    } else if base_color == Color::White {
        if b == 0 {
            Color::Blue3
        } else if b == 1 {
            Color::Blue4
        } else if b == 2 {
            Color::Blue5
        } else if 3 <= b < 6 {
            Color::Blue6
        } else {
            Color::White
        }
    } else if base_color == Color::Black {
        if 0 <= b <= 3 {
            Color::Black
        } else if 4 <= b <= 6 {
            Color::Blue0
        } else {
            Color::Blue1
        }
    } else if base_color == Color::Cyan2 {
        if 0 <= b <= 1 {
            Color::Blue2
        } else if 2 <= b <= 3 {
            Color::Cyan1
        } else if 4 <= b <= 6 {
            Color::Cyan2
        } else {
            Color::White
        }
    } else {
        spec_grayscale(v)
    }
}

/// Convert an illumination scalar and a base color to a lit color along the
/// base color's fixed ramp.
pub fn lit_color_old(value: i64, base_color: Color) -> (r: Color)
    ensures
        r == spec_lit_color_old(value as int, base_color),
{
    let b = shade_bucket_of(value);
    if base_color == Color::Red {
        if b == 0 {
            Color::Brown0
        } else if b == 1 {
            Color::Purple
        } else if b == 2 {
            Color::Pink0
        } else if 3 <= b && b <= 6 {
            Color::Red
        } else if b == 7 {
            Color::Coral
        } else {
            Color::Orange
        }
    } else if base_color == Color::White {
        if b == 0 {
            Color::Blue3
        } else if b == 1 {
            Color::Blue4
        } else if b == 2 {
            Color::Blue5
        } else if 3 <= b && b < 6 {
            Color::Blue6
        } else {
            Color::White
        }
    } else if base_color == Color::Black {
        if b <= 3 {
            Color::Black
        } else if 4 <= b && b <= 6 {
            Color::Blue0
        } else {
            Color::Blue1
        }
    } else if base_color == Color::Cyan2 {
        if b <= 1 {
            Color::Blue2
        } else if 2 <= b && b <= 3 {
            Color::Cyan1
        } else if 4 <= b && b <= 6 {
            Color::Cyan2
        } else {
            Color::White
        }
    } else {
        grayscale(value)
    }
}


/// Raising a known power to twice its exponent squares its value.
proof fn lemma_pow_square(b: int, e: nat, v: int)
    requires
        pow(b, e) == v,
    ensures
        pow(b, 2 * e) == v * v,
{
    lemma_pow_adds(b, e, e);
}

/// Ground facts behind the shade thresholds: each threshold `T` is the
/// least scalar with `k^256 <= 2^(3*T)`, witnessed here by exact powers.
proof fn lemma_shade_ground_facts()
    ensures
        pow(3, 256) <= pow(2, 408),
        pow(2, 405) < pow(3, 256),
        pow(5, 256) <= pow(2, 597),
        pow(2, 594) < pow(5, 256),
        pow(6, 256) <= pow(2, 663),
        pow(2, 660) < pow(6, 256),
        pow(7, 256) <= pow(2, 720),
        pow(2, 717) < pow(7, 256),
{
    lemma_pow1(2);
    lemma_pow_square(2, 1, 2int);
    assert(pow(2, 2) == 4int);
    lemma_pow_square(2, 2, 4int);
    assert(pow(2, 4) == 16int);
    lemma_pow_square(2, 4, 16int);
    assert(pow(2, 8) == 256int);
    lemma_pow_square(2, 8, 256int);
    assert(pow(2, 16) == 65536int);
    lemma_pow_square(2, 16, 65536int);
    assert(pow(2, 32) == 4294967296int);
    lemma_pow_square(2, 32, 4294967296int);
    assert(pow(2, 64) == 18446744073709551616int);
    lemma_pow_square(2, 64, 18446744073709551616int);
    assert(pow(2, 128) == 340282366920938463463374607431768211456int);
    lemma_pow_square(2, 128, 340282366920938463463374607431768211456int);
    assert(pow(2, 256) == 115792089237316195423570985008687907853269984665640564039457584007913129639936int);
    lemma_pow_square(2, 256, 115792089237316195423570985008687907853269984665640564039457584007913129639936int);
    assert(pow(2, 512) == 13407807929942597099574024998205846127479365820592393377723561443721764030073546976801874298166903427690031858186486050853753882811946569946433649006084096int);
    lemma_pow1(3);
    lemma_pow_square(3, 1, 3int);
    assert(pow(3, 2) == 9int);
    lemma_pow_square(3, 2, 9int);
    assert(pow(3, 4) == 81int);
    lemma_pow_square(3, 4, 81int);
    assert(pow(3, 8) == 6561int);
    lemma_pow_square(3, 8, 6561int);
    assert(pow(3, 16) == 43046721int);
    lemma_pow_square(3, 16, 43046721int);
    assert(pow(3, 32) == 1853020188851841int);
    lemma_pow_square(3, 32, 1853020188851841int);
    assert(pow(3, 64) == 3433683820292512484657849089281int);
    lemma_pow_square(3, 64, 3433683820292512484657849089281int);
    assert(pow(3, 128) == 11790184577738583171520872861412518665678211592275841109096961int);
    lemma_pow_square(3, 128, 11790184577738583171520872861412518665678211592275841109096961int);
    assert(pow(3, 256) == 139008452377144732764939786789661303114218850808529137991604824430036072629766435941001769154109609521811665540548899435521int);
    lemma_pow1(5);
    lemma_pow_square(5, 1, 5int);
    assert(pow(5, 2) == 25int);
    lemma_pow_square(5, 2, 25int);
    assert(pow(5, 4) == 625int);
    lemma_pow_square(5, 4, 625int);
    assert(pow(5, 8) == 390625int);
    lemma_pow_square(5, 8, 390625int);
    assert(pow(5, 16) == 152587890625int);
    lemma_pow_square(5, 16, 152587890625int);
    assert(pow(5, 32) == 23283064365386962890625int);
    lemma_pow_square(5, 32, 23283064365386962890625int);
    assert(pow(5, 64) == 542101086242752217003726400434970855712890625int);
    lemma_pow_square(5, 64, 542101086242752217003726400434970855712890625int);
    assert(pow(5, 128) == 293873587705571876992184134305561419454666389193021880377187926569604314863681793212890625int);
    lemma_pow_square(5, 128, 293873587705571876992184134305561419454666389193021880377187926569604314863681793212890625int);
    assert(pow(5, 256) == 86361685550944446253863518628003995711160003644362813850237034701685918031624270579715075034722882265605472939461496635969950989468319466936530037770580747746862471103668212890625int);
    lemma_pow1(6);
    lemma_pow_square(6, 1, 6int);
    assert(pow(6, 2) == 36int);
    lemma_pow_square(6, 2, 36int);
    assert(pow(6, 4) == 1296int);
    lemma_pow_square(6, 4, 1296int);
    assert(pow(6, 8) == 1679616int);
    lemma_pow_square(6, 8, 1679616int);
    assert(pow(6, 16) == 2821109907456int);
    lemma_pow_square(6, 16, 2821109907456int);
    assert(pow(6, 32) == 7958661109946400884391936int);
    lemma_pow_square(6, 32, 7958661109946400884391936int);
    assert(pow(6, 64) == 63340286662973277706162286946811886609896461828096int);
    lemma_pow_square(6, 64, 63340286662973277706162286946811886609896461828096int);
    assert(pow(6, 128) == 4011991914547630480065053387702443812690402487741812225955731622655455723258857248542161222254985216int);
    lemma_pow_square(6, 128, 4011991914547630480065053387702443812690402487741812225955731622655455723258857248542161222254985216int);
    assert(pow(6, 256) == 16096079122395561512061763913577304064976913480336184419870793713264277662647884811647537309195067118494671396772863385036070451166210844912750004569643271101628982439604781505910612662005364378566656int);
    lemma_pow1(7);
    lemma_pow_square(7, 1, 7int);
    assert(pow(7, 2) == 49int);
    lemma_pow_square(7, 2, 49int);
    assert(pow(7, 4) == 2401int);
    lemma_pow_square(7, 4, 2401int);
    assert(pow(7, 8) == 5764801int);
    lemma_pow_square(7, 8, 5764801int);
    assert(pow(7, 16) == 33232930569601int);
    lemma_pow_square(7, 16, 33232930569601int);
    assert(pow(7, 32) == 1104427674243920646305299201int);
    lemma_pow_square(7, 32, 1104427674243920646305299201int);
    assert(pow(7, 64) == 1219760487635835700138573862562971820755615294131238401int);
    lemma_pow_square(7, 64, 1219760487635835700138573862562971820755615294131238401int);
    assert(pow(7, 128) == 1487815647197611695910312681741273570332356717154798949898498305086387315423300999654757561928633305897036801int);
    lemma_pow_square(7, 128, 1487815647197611695910312681741273570332356717154798949898498305086387315423300999654757561928633305897036801int);
    assert(pow(7, 256) == 2213595400046048155450188615474945937162517050260073069916366390524704974007989996848003433837940380782794455262312607598867363425940560014856027866381946458951205837379116473663246733509680721264246243189632348313601int);
    lemma_pow_adds(2, 256, 128);
    assert(pow(2, 384) == 39402006196394479212279040100143613805079739270465446667948293404245721771497210611414266254884915640806627990306816int);
    lemma_pow_adds(2, 384, 16);
    assert(pow(2, 400) == 2582249878086908589655919172003011874329705792829223512830659356540647622016841194629645353280137831435903171972747493376int);
    lemma_pow_adds(2, 400, 8);
    assert(pow(2, 408) == 661055968790248598951915308032771039828404682964281219284648795274405791236311345825189210439715284847591212025023358304256int);
    lemma_pow_adds(2, 400, 4);
    assert(pow(2, 404) == 41315998049390537434494706752048189989275292685267576205290549704650361952269459114074325652482205302974450751563959894016int);
    lemma_pow_adds(2, 404, 1);
    assert(pow(2, 405) == 82631996098781074868989413504096379978550585370535152410581099409300723904538918228148651304964410605948901503127919788032int);
    lemma_pow_adds(2, 512, 64);
    assert(pow(2, 576) == 247330401473104534060502521019647190035131349101211839914063056092897225106531867170316401061243044989597671426016139339351365034306751209967546155101893167916606772148699136int);
    lemma_pow_adds(2, 576, 16);
    assert(pow(2, 592) == 16209045190941378744189093217543598246142368094697019140608036444104112544581672446873855659949624196438272994575393707743731058888327247296433104820757670652582741419537146576896int);
    lemma_pow_adds(2, 592, 4);
    assert(pow(2, 596) == 259344723055062059907025491480697571938277889515152306249728583105665800713306759149981690559193987143012367913206299323899696942213235956742929677132122730441323862712594345230336int);
    lemma_pow_adds(2, 596, 1);
    assert(pow(2, 597) == 518689446110124119814050982961395143876555779030304612499457166211331601426613518299963381118387974286024735826412598647799393884426471913485859354264245460882647725425188690460672int);
    lemma_pow_adds(2, 592, 2);
    assert(pow(2, 594) == 64836180763765514976756372870174392984569472378788076562432145776416450178326689787495422639798496785753091978301574830974924235553308989185732419283030682610330965678148586307584int);
    lemma_pow_adds(2, 512, 128);
    assert(pow(2, 640) == 4562440617622195218641171605700291324893228507248559930579192517899275167208677386505912811317371399778642309573594407310688704721375437998252661319722214188251994674360264950082874192246603776int);
    lemma_pow_adds(2, 640, 16);
    assert(pow(2, 656) == 299004108316488185848867822351174292268202623451041623610437960853046897358187881202051502002495252055893102400215083077513294952620060704653486412249315029041282722978874323768631243063073425063936int);
    lemma_pow_adds(2, 656, 4);
    assert(pow(2, 660) == 4784065733063810973581885157618788676291241975216665977767007373648750357731006099232824032039924032894289638403441329240212719241920971274455782595989040464660523567661989180298099889009174801022976int);
    lemma_pow_adds(2, 660, 2);
    assert(pow(2, 662) == 19136262932255243894327540630475154705164967900866663911068029494595001430924024396931296128159696131577158553613765316960850876967683885097823130383956161858642094270647956721192399556036699204091904int);
    lemma_pow_adds(2, 662, 1);
    assert(pow(2, 663) == 38272525864510487788655081260950309410329935801733327822136058989190002861848048793862592256319392263154317107227530633921701753935367770195646260767912323717284188541295913442384799112073398408183808int);
    lemma_pow_adds(2, 640, 64);
    assert(pow(2, 704) == 84162174424773976115855838126082058648805436845170781751972494449099714468753293153818664580441415219631727501698851483408310916002940861810045036330430093599283578738055113571066620126149163476340692027772502016int);
    lemma_pow_adds(2, 704, 16);
    assert(pow(2, 720) == 5515652263101987298728728207430913795608113109085112352897269396216198887424215820128660001943808587833784893551335930816647064191168732319583111500951066614122648616177179922993422016587311577585463592732098692120576int);
    lemma_pow_adds(2, 704, 8);
    assert(pow(2, 712) == 21545516652742137885659094560277007014094191832363720128504958578969526904000843047377578132593002296225722240434905979752527594496752860623371529300590103961416596156942109074193054752294185849943217159109760516096int);
    lemma_pow_adds(2, 712, 4);
    assert(pow(2, 716) == 344728266443874206170545512964432112225507069317819522056079337263512430464013488758041250121488036739611555846958495676040441511948045769973944468809441663382665538511073745187088876036706973599091474545756168257536int);
    lemma_pow_adds(2, 716, 1);
    assert(pow(2, 717) == 689456532887748412341091025928864224451014138635639044112158674527024860928026977516082500242976073479223111693916991352080883023896091539947888937618883326765331077022147490374177752073413947198182949091512336515072int);
    assert(pow(3, 256) <= pow(2, 408));
    assert(pow(2, 405) < pow(3, 256));
    assert(pow(5, 256) <= pow(2, 597));
    assert(pow(2, 594) < pow(5, 256));
    assert(pow(6, 256) <= pow(2, 663));
    assert(pow(2, 660) < pow(6, 256));
    assert(pow(7, 256) <= pow(2, 720));
    assert(pow(2, 717) < pow(7, 256));
}

/// The threshold table is exactly the exponential quantizer: for a clamped
/// illumination `m`, the bucket `k = shade_bucket(m)` satisfies
/// `k^256 <= 2^(3*m)`, and below saturation also `2^(3*m) < (k+1)^256` -
/// that is, `k` is precisely `floor(2^(3*m/256))`.
pub proof fn lemma_shade_bucket_is_exponential(m: int)
    requires
        0 <= m <= 256,
    ensures
        pow(shade_bucket(m), 256) <= pow(2, (3 * m) as nat),
        shade_bucket(m) < 8 ==> pow(2, (3 * m) as nat) < pow(shade_bucket(m) + 1, 256),
{
    let e: nat = (3 * m) as nat;
    lemma_shade_ground_facts();
    // pow(4, 256) == pow(2, 512) and pow(8, 256) == pow(2, 768).
    lemma_pow1(2);
    lemma_pow_square(2, 1, 2);
    lemma_pow_adds(2, 2, 1);
    lemma_pow_multiplies(2, 2, 256);
    lemma_pow_multiplies(2, 3, 256);
    assert(pow(4, 256) == pow(2, 512));
    assert(pow(8, 256) == pow(2, 768));
    if m < 86 {
        lemma1_pow(256);
        lemma_pow_positive(2, e);
        lemma_pow_strictly_increases(2, e, 256);
    } else if m < 136 {
        lemma_pow_increases(2, 256, e);
        lemma_pow_increases(2, e, 405);
    } else if m < 171 {
        lemma_pow_increases(2, 408, e);
        lemma_pow_increases(2, e, 510);
        lemma_pow_strictly_increases(2, 510, 512);
    } else if m < 199 {
        lemma_pow_increases(2, 512, e);
        lemma_pow_increases(2, e, 594);
    } else if m < 221 {
        lemma_pow_increases(2, 597, e);
        lemma_pow_increases(2, e, 660);
    } else if m < 240 {
        lemma_pow_increases(2, 663, e);
        lemma_pow_increases(2, e, 717);
    } else if m < 256 {
        lemma_pow_increases(2, 720, e);
        lemma_pow_increases(2, e, 765);
        lemma_pow_strictly_increases(2, 765, 768);
    } else {
        assert(e == 768);
    }
}

} // verus!
