use gacha_sim::banner::BannerConfig;
use gacha_sim::codec::banner_from_query_string;
use gacha_sim::codec::banner_query_string;
use gacha_sim::codec::decode_banner;
use gacha_sim::codec::decode_goal;
use gacha_sim::codec::encode_banner;
use gacha_sim::codec::encode_goal;
use gacha_sim::codec::goal_from_query_string;
use gacha_sim::codec::goal_query_string;
use gacha_sim::goal::GoalKind;
use gacha_sim::goal::GoalPart;
use gacha_sim::goal::GoalPreset;
use gacha_sim::goal::GoalSpec;
use gacha_sim::Color;

fn sample_banner() -> BannerConfig {
    BannerConfig {
        focus_sizes: [3, 3, 3, 3],
        rate_focus: 3,
        rate_off: 3,
        pity_floor: 50,
        pity_ceiling: 120,
        pity_step: 50,
    }
}

fn sample_goal() -> GoalSpec {
    GoalSpec {
        kind: GoalKind::All,
        goals: vec![
            GoalPart { unit_color: Color::Red, num_copies: 1 },
            GoalPart { unit_color: Color::Green, num_copies: 3 },
        ],
        preset: GoalPreset::AllFocusColors,
    }
}

#[test]
fn banner_bytes_round_trip() {
    let b = sample_banner();
    let bytes = encode_banner(&b);
    assert_eq!(bytes, vec![3, 3, 3, 3, 3, 3, 50, 0, 120, 0, 50, 0]);
    let back = decode_banner(&bytes);
    assert_eq!(back, Some(b));
}

#[test]
fn banner_bytes_round_trip_wide_values() {
    let b = BannerConfig {
        focus_sizes: [0, 2, 0, 7],
        rate_focus: 8,
        rate_off: 0,
        pity_floor: 300,
        pity_ceiling: 1000,
        pity_step: 999,
    };
    let back = decode_banner(&encode_banner(&b));
    assert_eq!(back, Some(b));
}

#[test]
fn goal_bytes_round_trip() {
    let g = sample_goal();
    let bytes = encode_goal(&g);
    assert_eq!(bytes, vec![0, 2, 2, 0, 1, 2, 3]);
    let back = decode_goal(&bytes).expect("valid goal payload");
    assert_eq!(back, g);
}

#[test]
fn banner_permalink_round_trip() {
    let b = sample_banner();
    let s = banner_query_string(&b);
    assert_eq!(s, "AwMDAwMDMgB4ADIA");
    assert_eq!(banner_from_query_string(&s), Some(b));
}

#[test]
fn goal_permalink_round_trip() {
    let g = sample_goal();
    let s = goal_query_string(&g);
    assert_eq!(s, "AAICAAECAw==");
    let back = goal_from_query_string(&s).expect("valid goal permalink");
    assert_eq!(back, g);
}

#[test]
fn truncated_payload_is_rejected() {
    let b = sample_banner();
    let mut bytes = encode_banner(&b);
    bytes.pop();
    assert_eq!(decode_banner(&bytes), None);
    let g = sample_goal();
    let mut gb = encode_goal(&g);
    gb.pop();
    assert_eq!(decode_goal(&gb), None);
}

#[test]
fn malformed_permalink_degrades_silently() {
    assert_eq!(banner_from_query_string("!!!not base64!!!"), None);
    assert_eq!(goal_from_query_string("!!!not base64!!!"), None);
    // Valid base64, wrong payload length.
    assert_eq!(banner_from_query_string("AAEC"), None);
    // Random bytes of the right length but an ill-formed banner.
    let junk = base64::encode(&[0u8, 0, 0, 0, 0, 0, 9, 9, 9, 9, 9, 9]);
    assert_eq!(banner_from_query_string(&junk), None);
}

#[test]
fn truncated_permalink_degrades_silently() {
    let b = sample_banner();
    let s = banner_query_string(&b);
    let cut = &s[..s.len() - 4];
    assert_eq!(banner_from_query_string(cut), None);
}

#[test]
fn goal_payload_validation() {
    // Unknown kind code.
    assert_eq!(decode_goal(&vec![9, 0, 0]), None);
    // Unknown preset code.
    assert_eq!(decode_goal(&vec![0, 9, 0]), None);
    // Color ordinal out of range.
    assert_eq!(decode_goal(&vec![0, 0, 1, 7, 1]), None);
    // A part asking for zero copies is invalid, not a no-op.
    assert_eq!(decode_goal(&vec![0, 0, 1, 2, 0]), None);
    // Length disagrees with the part count.
    assert_eq!(decode_goal(&vec![0, 0, 2, 1, 1]), None);
}

#[test]
fn banner_payload_validation() {
    // Zero focus rate can never satisfy a goal: rejected.
    assert_eq!(decode_banner(&vec![3, 3, 3, 3, 0, 3, 50, 0, 120, 0, 50, 0]), None);
    // Rates beyond 100 percent: rejected.
    assert_eq!(decode_banner(&vec![3, 3, 3, 3, 90, 90, 50, 0, 120, 0, 50, 0]), None);
    // Ceiling at or below the floor: rejected.
    assert_eq!(decode_banner(&vec![3, 3, 3, 3, 3, 3, 120, 0, 120, 0, 50, 0]), None);
}

#[test]
fn goal_round_trip_at_format_capacity() {
    let goals = vec![GoalPart { unit_color: Color::Red, num_copies: 1 }; 255];
    let g = GoalSpec { kind: GoalKind::All, goals, preset: GoalPreset::Custom };
    let back = decode_goal(&encode_goal(&g)).expect("capacity-sized goal payload");
    assert_eq!(back, g);
}
