use crate::banner::BannerConfig;
use crate::goal::GoalKind;
use crate::goal::GoalPart;
use crate::goal::GoalPreset;
use crate::goal::GoalSpec;
use crate::sim::color_of;
use vstd::prelude::*;

verus! {

/// Length of an encoded banner configuration.
pub const BANNER_BYTES: usize = 12;

/// Compact binary layout of a banner configuration: the four focus
/// sizes, the two starting rates, then floor, ceiling and step as
/// little-endian 16-bit values.
pub open spec fn encode_banner_bytes(b: BannerConfig) -> Seq<u8> {
    Seq::new(
        12,
        |i: int|
            if i == 0 {
                b.focus_sizes@[0]
            } else if i == 1 {
                b.focus_sizes@[1]
            } else if i == 2 {
                b.focus_sizes@[2]
            } else if i == 3 {
                b.focus_sizes@[3]
            } else if i == 4 {
                b.rate_focus
            } else if i == 5 {
                b.rate_off
            } else if i == 6 {
                (b.pity_floor % 256) as u8
            } else if i == 7 {
                (b.pity_floor / 256) as u8
            } else if i == 8 {
                (b.pity_ceiling % 256) as u8
            } else if i == 9 {
                (b.pity_ceiling / 256) as u8
            } else if i == 10 {
                (b.pity_step % 256) as u8
            } else {
                (b.pity_step / 256) as u8
            },
    )
}

/// Code of a goal's combination rule in the binary layout.
pub open spec fn kind_code(k: GoalKind) -> u8 {
    match k {
        GoalKind::All => 0,
        GoalKind::Any => 1,
    }
}

/// Code of a goal's preset in the binary layout.
pub open spec fn preset_code(p: GoalPreset) -> u8 {
    match p {
        GoalPreset::Custom => 0,
        GoalPreset::AnyFocus => 1,
        GoalPreset::AllFocusColors => 2,
    }
}

/// Binary layout of the part list: color ordinal and copy count, two
/// bytes per part, in order.
pub open spec fn parts_bytes(parts: Seq<GoalPart>) -> Seq<u8>
    decreases parts.len(),
{
    if parts.len() == 0 {
        Seq::empty()
    } else {
        seq![parts[0].unit_color.ord() as u8, parts[0].num_copies] + parts_bytes(
            parts.drop_first(),
        )
    }
}

/// Compact binary layout of a goal: rule code, preset code, part count,
/// then the part list.
pub open spec fn encode_goal_bytes(g: GoalSpec) -> Seq<u8> {
    seq![kind_code(g.kind), preset_code(g.preset), g.goals@.len() as u8] + parts_bytes(g.goals@)
}

/// The part list's layout is two bytes per part, holding its color
/// ordinal and its copy count.
proof fn lemma_parts_bytes(parts: Seq<GoalPart>)
    ensures
        parts_bytes(parts).len() == 2 * parts.len(),
        forall|i: int|
            0 <= i < parts.len() ==> parts_bytes(parts)[2 * i] == (
            #[trigger] parts[i]).unit_color.ord() as u8 && parts_bytes(parts)[2 * i + 1]
                == parts[i].num_copies,
    decreases parts.len(),
{
    if parts.len() > 0 {
        lemma_parts_bytes(parts.drop_first());
        assert forall|i: int|
            0 <= i < parts.len() implies parts_bytes(parts)[2 * i] == (
        #[trigger] parts[i]).unit_color.ord() as u8 && parts_bytes(parts)[2 * i + 1]
            == parts[i].num_copies by {
            if i > 0 {
                assert(parts.drop_first()[i - 1] == parts[i]);
            }
        }
    }
}

/// Appending one part appends its two bytes.
proof fn lemma_parts_bytes_push(parts: Seq<GoalPart>, p: GoalPart)
    ensures
        parts_bytes(parts.push(p)) =~= parts_bytes(parts) + seq![
            p.unit_color.ord() as u8,
            p.num_copies,
        ],
    decreases parts.len(),
{
    if parts.len() == 0 {
        assert(parts.push(p).drop_first() =~= Seq::<GoalPart>::empty());
        assert(parts_bytes(Seq::<GoalPart>::empty()) =~= Seq::<u8>::empty());
        assert(parts.push(p)[0] == p);
    } else {
        assert(parts.push(p).drop_first() =~= parts.drop_first().push(p));
        lemma_parts_bytes_push(parts.drop_first(), p);
        assert(parts.push(p)[0] == parts[0]);
        assert(parts_bytes(parts.push(p)) =~= seq![
            parts[0].unit_color.ord() as u8,
            parts[0].num_copies,
        ] + (parts_bytes(parts.drop_first()) + seq![p.unit_color.ord() as u8, p.num_copies]));
    }
}

/// Encode a banner configuration into its binary layout.
pub fn encode_banner(b: &BannerConfig) -> (r: Vec<u8>)
    ensures
        r@ == encode_banner_bytes(*b),
{
    let mut out: Vec<u8> = Vec::new();
    out.push(b.focus_sizes[0]);
    out.push(b.focus_sizes[1]);
    out.push(b.focus_sizes[2]);
    out.push(b.focus_sizes[3]);
    out.push(b.rate_focus);
    out.push(b.rate_off);
    out.push((b.pity_floor % 256) as u8);
    out.push((b.pity_floor / 256) as u8);
    out.push((b.pity_ceiling % 256) as u8);
    out.push((b.pity_ceiling / 256) as u8);
    out.push((b.pity_step % 256) as u8);
    out.push((b.pity_step / 256) as u8);
    proof {
        assert(out@ =~= encode_banner_bytes(*b));
    }
    out
}

/// Decode a banner configuration from its binary layout.
///
/// Succeeds exactly on well-formed encodings: decoding any valid
/// banner's encoding returns that banner, every successful decode
/// yields a well-formed banner that re-encodes to the input, and any
/// other payload is rejected.
pub fn decode_banner(bytes: &Vec<u8>) -> (r: Option<BannerConfig>)
    ensures
        forall|b: BannerConfig| b.wf() && bytes@ == encode_banner_bytes(b) ==> r == Some(b),
        r matches Some(bc) ==> bc.wf() && encode_banner_bytes(bc) == bytes@,
{
    if bytes.len() != BANNER_BYTES {
        return None;
    }
    let floor: u16 = bytes[6] as u16 + 256 * (bytes[7] as u16);
    let ceiling: u16 = bytes[8] as u16 + 256 * (bytes[9] as u16);
    let step: u16 = bytes[10] as u16 + 256 * (bytes[11] as u16);
    let bc = BannerConfig {
        focus_sizes: [bytes[0], bytes[1], bytes[2], bytes[3]],
        rate_focus: bytes[4],
        rate_off: bytes[5],
        pity_floor: floor,
        pity_ceiling: ceiling,
        pity_step: step,
    };
    let ok = 1 <= bc.rate_focus && bc.rate_focus as u16 + bc.rate_off as u16 <= 100 && floor <= 996
        && floor + 4 <= ceiling && ceiling <= 1000 && 1 <= step;
    proof {
        assert forall|b: BannerConfig|
            b.wf() && bytes@ == encode_banner_bytes(b) implies bc == b && ok by {
            assert(bc.focus_sizes@ =~= b.focus_sizes@);
            assert(bc.focus_sizes =~= b.focus_sizes);
            assert(bc.pity_floor == b.pity_floor % 256 + 256 * (b.pity_floor / 256));
            assert(bc.pity_floor == b.pity_floor);
            assert(bc.pity_ceiling == b.pity_ceiling);
            assert(bc.pity_step == b.pity_step);
        }
        if ok {
            assert(encode_banner_bytes(bc) =~= bytes@);
        }
    }
    if ok {
        Some(bc)
    } else {
        None
    }
}

/// Encode a goal into its binary layout.
pub fn encode_goal(g: &GoalSpec) -> (r: Vec<u8>)
    requires
        g.wf(),
        g.goals@.len() <= 255,
    ensures
        r@ == encode_goal_bytes(*g),
{
    let mut out: Vec<u8> = Vec::new();
    out.push(match g.kind {
        GoalKind::All => 0,
        GoalKind::Any => 1,
    });
    out.push(match g.preset {
        GoalPreset::Custom => 0,
        GoalPreset::AnyFocus => 1,
        GoalPreset::AllFocusColors => 2,
    });
    out.push(g.goals.len() as u8);
    let n = g.goals.len();
    let mut i: usize = 0;
    while i < n
        invariant
            i <= n,
            n == g.goals@.len(),
            out@ =~= seq![kind_code(g.kind), preset_code(g.preset), g.goals@.len() as u8]
                + parts_bytes(g.goals@.subrange(0, i as int)),
        decreases n - i,
    {
        let part = g.goals[i];
        out.push(part.unit_color.index() as u8);
        out.push(part.num_copies);
        proof {
            lemma_parts_bytes_push(g.goals@.subrange(0, i as int), g.goals@[i as int]);
            assert(g.goals@.subrange(0, i as int).push(g.goals@[i as int]) =~= g.goals@.subrange(
                0,
                i as int + 1,
            ));
        }
        i = i + 1;
    }
    proof {
        assert(g.goals@.subrange(0, n as int) =~= g.goals@);
        assert(out@ =~= encode_goal_bytes(*g));
    }
    out
}

/// Decode a goal from its binary layout.
///
/// Succeeds exactly on well-formed encodings: decoding any valid
/// goal's encoding recovers its rule, preset and parts; every
/// successful decode yields a well-formed goal that re-encodes to the
/// input; any other payload is rejected.
pub fn decode_goal(bytes: &Vec<u8>) -> (r: Option<GoalSpec>)
    ensures
        forall|g: GoalSpec|
            g.wf() && g.goals@.len() <= 255 && bytes@ == encode_goal_bytes(g) ==> (r matches Some(
                g2,
            ) && g2.kind == g.kind && g2.preset == g.preset && g2.goals@ == g.goals@),
        r matches Some(g2) ==> g2.wf() && g2.goals@.len() <= 255 && encode_goal_bytes(g2)
            == bytes@,
{
    proof {
        assert forall|g: GoalSpec|
            bytes@ == encode_goal_bytes(g) implies bytes@.len() == 3 + 2 * g.goals@.len()
            && bytes@[0] == kind_code(g.kind) && bytes@[1] == preset_code(g.preset) && bytes@[2]
            == g.goals@.len() as u8 && (forall|i: int|
            0 <= i < g.goals@.len() ==> bytes@[3 + 2 * i] == (
            #[trigger] g.goals@[i]).unit_color.ord() as u8 && bytes@[3 + 2 * i + 1]
                == g.goals@[i].num_copies) by {
            lemma_parts_bytes(g.goals@);
        }
    }
    if bytes.len() < 3 {
        return None;
    }
    let kind = match bytes[0] {
        0u8 => GoalKind::All,
        1u8 => GoalKind::Any,
        _ => {
            return None;
        },
    };
    let preset = match bytes[1] {
        0u8 => GoalPreset::Custom,
        1u8 => GoalPreset::AnyFocus,
        2u8 => GoalPreset::AllFocusColors,
        _ => {
            return None;
        },
    };
    let n = bytes[2] as usize;
    if bytes.len() != 3 + 2 * n {
        return None;
    }
    let mut parts: Vec<GoalPart> = Vec::new();
    let mut i: usize = 0;
    while i < n
        invariant
            i <= n,
            n <= 255,
            bytes@.len() == 3 + 2 * n,
            kind_code(kind) == bytes@[0],
            preset_code(preset) == bytes@[1],
            bytes@[2] == n as u8,
            parts@.len() == i,
            forall|j: int|
                0 <= j < i ==> (#[trigger] parts@[j]).unit_color.ord() as u8 == bytes@[3 + 2 * j]
                    && parts@[j].num_copies == bytes@[3 + 2 * j + 1] && parts@[j].num_copies >= 1,
        decreases n - i,
    {
        let cb = bytes[3 + 2 * i];
        let q = bytes[4 + 2 * i];
        proof {
            assert forall|g: GoalSpec|
                g.wf() && g.goals@.len() <= 255 && bytes@ == encode_goal_bytes(g) implies cb < 4
                && q >= 1 by {
                lemma_parts_bytes(g.goals@);
                assert(bytes@.len() == 3 + 2 * g.goals@.len());
                assert(g.goals@.len() == n);
                assert(bytes@[3 + 2 * (i as int)] == (
                g.goals@[i as int]).unit_color.ord() as u8);
                assert(bytes@[3 + 2 * (i as int) + 1] == g.goals@[i as int].num_copies);
            }
        }
        let color = match cb {
            0u8 => crate::Color::Red,
            1u8 => crate::Color::Blue,
            2u8 => crate::Color::Green,
            3u8 => crate::Color::Colorless,
            _ => {
                return None;
            },
        };
        if q == 0 {
            return None;
        }
        parts.push(GoalPart { unit_color: color, num_copies: q });
        i = i + 1;
    }
    let g2 = GoalSpec { kind: kind, goals: parts, preset: preset };
    proof {
        lemma_parts_bytes(g2.goals@);
        assert(encode_goal_bytes(g2).len() == 3 + 2 * (n as int));
        assert forall|t: int|
            0 <= t < 3 + 2 * (n as int) implies encode_goal_bytes(g2)[t] == bytes@[t] by {
            if t >= 3 {
                let j = (t - 3) / 2;
                assert(0 <= j < parts@.len());
                if (t - 3) % 2 == 0 {
                    assert(t == 3 + 2 * j);
                    assert(encode_goal_bytes(g2)[3 + 2 * j] == parts_bytes(g2.goals@)[2 * j]);
                    assert(parts_bytes(g2.goals@)[2 * j] == (
                    parts@[j]).unit_color.ord() as u8);
                    assert(bytes@[3 + 2 * j] == (parts@[j]).unit_color.ord() as u8);
                } else {
                    assert(t == 3 + 2 * j + 1);
                    assert(encode_goal_bytes(g2)[3 + 2 * j + 1] == parts_bytes(g2.goals@)[2 * j
                        + 1]);
                    assert(parts_bytes(g2.goals@)[2 * j + 1] == (parts@[j]).num_copies);
                    assert(bytes@[3 + 2 * j + 1] == (parts@[j]).num_copies);
                }
            } else {
                assert(encode_goal_bytes(g2)[0] == kind_code(kind));
                assert(encode_goal_bytes(g2)[1] == preset_code(preset));
                assert(encode_goal_bytes(g2)[2] == parts@.len() as u8);
                assert(parts@.len() == n);
            }
        }
        assert(encode_goal_bytes(g2) =~= bytes@);
        assert forall|g: GoalSpec|
            g.wf() && g.goals@.len() <= 255 && bytes@ == encode_goal_bytes(g) implies g2.kind
            == g.kind && g2.preset == g.preset && g2.goals@ == g.goals@ by {
            lemma_parts_bytes(g.goals@);
            assert forall|j: int| 0 <= j < g.goals@.len() implies g2.goals@[j] == g.goals@[j] by {
                assert(g2.goals@[j].unit_color.ord() as u8 == (
                g.goals@[j]).unit_color.ord() as u8);
                assert(g2.goals@[j].unit_color.ord() == g.goals@[j].unit_color.ord());
                assert(color_of(g2.goals@[j].unit_color.ord()) == g2.goals@[j].unit_color);
                assert(color_of(g.goals@[j].unit_color.ord()) == g.goals@[j].unit_color);
            }
            assert(g2.goals@ =~= g.goals@);
        }
    }
    Some(g2)
}

/// Base64 text of a byte sequence: the permalink alphabet. The text is
/// a function of the bytes alone.
pub uninterp spec fn b64_of(bytes: Seq<u8>) -> Seq<char>;

/// Relies on base64::encode (standard alphabet): the returned text
/// depends on the input bytes alone.
#[verifier::external_body]
fn base64_encode(bytes: &Vec<u8>) -> (r: String)
    ensures
        r@ == b64_of(bytes@),
{
    base64::encode(bytes)
}

/// Relies on base64::decode (standard alphabet): decoding the encoding
/// of any byte sequence recovers exactly those bytes; input that is no
/// valid encoding is reported as `None`, never a panic.
#[verifier::external_body]
fn base64_decode(s: &str) -> (r: Option<Vec<u8>>)
    ensures
        r matches Some(v) ==> forall|b: Seq<u8>| s@ == b64_of(b) ==> v@ == b,
        r is None ==> forall|b: Seq<u8>| s@ != b64_of(b),
{
    match base64::decode(s) {
        Ok(v) => Some(v),
        Err(_) => None,
    }
}

/// Permalink text of a banner configuration.
pub fn banner_query_string(b: &BannerConfig) -> (r: String)
    ensures
        r@ == b64_of(encode_banner_bytes(*b)),
{
    let bytes = encode_banner(b);
    base64_encode(&bytes)
}

/// Banner configuration recovered from permalink text.
///
/// The permalink of any well-formed banner decodes back to it; a
/// truncated, corrupted or foreign payload yields `None` (the session
/// falls back to its current configuration), never a panic.
pub fn banner_from_query_string(s: &str) -> (r: Option<BannerConfig>)
    ensures
        forall|b: BannerConfig| b.wf() && s@ == b64_of(encode_banner_bytes(b)) ==> r == Some(b),
        r matches Some(bc) ==> bc.wf(),
{
    match base64_decode(s) {
        Some(bytes) => decode_banner(&bytes),
        None => None,
    }
}

/// Permalink text of a goal.
pub fn goal_query_string(g: &GoalSpec) -> (r: String)
    requires
        g.wf(),
        g.goals@.len() <= 255,
    ensures
        r@ == b64_of(encode_goal_bytes(*g)),
{
    let bytes = encode_goal(g);
    base64_encode(&bytes)
}

/// Goal recovered from permalink text.
///
/// The permalink of any well-formed goal decodes back to an equal
/// goal; a truncated, corrupted or foreign payload yields `None`,
/// never a panic.
pub fn goal_from_query_string(s: &str) -> (r: Option<GoalSpec>)
    ensures
        forall|g: GoalSpec|
            g.wf() && g.goals@.len() <= 255 && s@ == b64_of(encode_goal_bytes(g)) ==> (r matches
                Some(g2) && g2.kind == g.kind && g2.preset == g.preset && g2.goals@ == g.goals@),
        r matches Some(g2) ==> g2.wf() && g2.goals@.len() <= 255,
{
    match base64_decode(s) {
        Some(bytes) => decode_goal(&bytes),
        None => None,
    }
}

} // verus!
