use assyst::discord::{
    channel_mention_to_id, dm_message_link, format_discord_timestamp, format_tag,
    get_avatar_url, get_default_avatar_url, id_from_mention, message_link, user_mention_to_id,
    User, MAX_TIMESTAMP,
};
use assyst::effects::{pick_random_effect_indices, pick_random_effects, EFFECT_COUNT};
use assyst::flux::build_job_options;
use assyst::procinfo::{format_elapsed, parse_statm};
use assyst::registry::{find_command_by_name, get_or_init_commands, CommandMetadata,
    CommandRegistry};
use assyst::{parse_with_parent, NopContext, Parser};

#[test]
fn mention_with_prefix_and_suffix() {
    assert_eq!(id_from_mention("<@!123456789012345678>"), Some(123456789012345678));
    assert_eq!(user_mention_to_id("<@123456789012345678>"), Some(123456789012345678));
    assert_eq!(channel_mention_to_id("<#123456789012345678>"), Some(123456789012345678));
}

#[test]
fn mention_bare_digits() {
    assert_eq!(id_from_mention("9876543210987654"), Some(9876543210987654));
}

#[test]
fn mention_embedded_in_text() {
    assert_eq!(id_from_mention("hi <@1111111111111111> bye"), Some(1111111111111111));
}

#[test]
fn mention_short_run_is_skipped() {
    assert_eq!(id_from_mention("<@12345>"), None);
    assert_eq!(id_from_mention("123 456 789"), None);
}

#[test]
fn mention_first_long_run_wins() {
    assert_eq!(
        id_from_mention("12 2222222222222222 3333333333333333"),
        Some(2222222222222222)
    );
}

#[test]
fn mention_caps_at_twenty_digits() {
    // A 21-digit run captures its first 20 digits only.
    assert_eq!(
        id_from_mention("111111111111111111111"),
        Some(11111111111111111111)
    );
}

#[test]
fn mention_overflowing_capture_is_none() {
    // 20 nines exceed what a 64-bit id can hold.
    assert_eq!(id_from_mention("99999999999999999999"), None);
}

#[test]
fn message_links() {
    assert_eq!(message_link(1, 2, 3), "https://discord.com/channels/1/2/3");
    assert_eq!(dm_message_link(4, 5), "https://discord.com/channels/@me/4/5");
}

#[test]
fn discord_timestamp_in_range() {
    assert_eq!(format_discord_timestamp(1000), "<t:1:R>");
    assert_eq!(format_discord_timestamp(0), "<t:0:R>");
}

#[test]
fn discord_timestamp_out_of_range() {
    assert_eq!(
        format_discord_timestamp(MAX_TIMESTAMP + 1),
        "8640000000000001 ms"
    );
}

#[test]
fn default_avatar_legacy_discriminator() {
    let user = User { id: 9, name: "n".to_string(), discriminator: 7, avatar: None };
    assert_eq!(
        get_default_avatar_url(&user),
        "https://cdn.discordapp.com/embed/avatars/2.png?size=1024"
    );
}

#[test]
fn default_avatar_pomelo() {
    let user = User { id: 1 << 22, name: "n".to_string(), discriminator: 0, avatar: None };
    assert_eq!(
        get_default_avatar_url(&user),
        "https://cdn.discordapp.com/embed/avatars/1.png?size=1024"
    );
}

#[test]
fn avatar_url_static_and_animated() {
    let user = User {
        id: 77,
        name: "n".to_string(),
        discriminator: 1,
        avatar: Some("abc".to_string()),
    };
    assert_eq!(
        get_avatar_url(&user),
        "https://cdn.discordapp.com/avatars/77/abc.png?size=1024"
    );
    let animated = User { avatar: Some("a_abc".to_string()), ..user };
    assert_eq!(
        get_avatar_url(&animated),
        "https://cdn.discordapp.com/avatars/77/a_abc.gif?size=1024"
    );
}

#[test]
fn avatar_url_falls_back_to_default() {
    let user = User { id: 9, name: "n".to_string(), discriminator: 7, avatar: None };
    assert_eq!(get_avatar_url(&user), get_default_avatar_url(&user));
}

#[test]
fn classic_tag() {
    let user = User { id: 1, name: "someone".to_string(), discriminator: 42, avatar: None };
    assert_eq!(format_tag(&user), "someone#42");
}

#[test]
fn registry_finds_by_name() {
    let registry = get_or_init_commands();
    let found = find_command_by_name(&registry, &"ping".to_string()).expect("ping");
    assert_eq!(found.name, "ping");
    assert!(find_command_by_name(&registry, &"nope".to_string()).is_none());
}

#[test]
fn registry_finds_by_alias() {
    let commands = vec![
        CommandMetadata { name: "randomize".to_string(), aliases: vec![
            "random".to_string(),
            "randomise".to_string(),
            "badcmd".to_string(),
        ] },
    ];
    let registry = CommandRegistry::from_commands(commands);
    let found = find_command_by_name(&registry, &"badcmd".to_string()).expect("alias");
    assert_eq!(found.name, "randomize");
}

#[test]
fn effect_counts_clamp() {
    assert_eq!(pick_random_effects(None).len(), 3);
    assert_eq!(pick_random_effects(Some(0)).len(), 1);
    assert_eq!(pick_random_effects(Some(4)).len(), 4);
    assert_eq!(pick_random_effects(Some(99)).len(), 5);
}

#[test]
fn effect_indices_never_repeat_consecutively() {
    for _ in 0..50 {
        let indices = pick_random_effect_indices(Some(5));
        assert_eq!(indices.len(), 5);
        for pair in indices.windows(2) {
            assert_ne!(pair[0], pair[1]);
        }
        for &i in &indices {
            assert!(i < EFFECT_COUNT);
        }
    }
}

#[test]
fn effect_names_come_from_the_palette() {
    let palette = [
        "bloom", "blur", "deepfry", "fisheye", "flip", "flop", "globe", "grayscale", "invert",
        "jpeg", "magik", "neon", "paint", "pixelate", "rainbow",
    ];
    for name in pick_random_effects(Some(5)) {
        assert!(palette.contains(&name.as_str()), "{name} is not an effect");
    }
}

#[test]
fn elapsed_two_fields() {
    assert_eq!(format_elapsed(&b"1:02".to_vec()), Some(b"1m 2s".to_vec()));
}

#[test]
fn elapsed_three_fields() {
    assert_eq!(format_elapsed(&b"1:2:3".to_vec()), Some(b"1h 2m 3s".to_vec()));
}

#[test]
fn elapsed_four_fields() {
    assert_eq!(format_elapsed(&b"5-01:02:03".to_vec()), Some(b"5d 1h 2m 3s".to_vec()));
}

#[test]
fn elapsed_unreadable_fields_count_zero() {
    assert_eq!(format_elapsed(&b"1:x".to_vec()), Some(b"1m 0s".to_vec()));
}

#[test]
fn elapsed_wrong_shape_is_refused() {
    assert_eq!(format_elapsed(&b"42".to_vec()), None);
    assert_eq!(format_elapsed(&b"1:2:3:4:5".to_vec()), None);
}

#[test]
fn parent_reuse_shares_state() {
    let mut parent = Parser::new(Vec::new());
    let first = parse_with_parent("{set:x|5}", &mut parent, &NopContext, true).unwrap();
    assert_eq!(first, "");
    let second = parse_with_parent("{get:x}", &mut parent, &NopContext, true).unwrap();
    assert_eq!(second, "5");
    // Two invocations so far; the budget is shared, never reset.
    assert_eq!(parent.counter(), 2);
}

#[test]
fn parent_reuse_can_force_effects_off() {
    let mut parent = Parser::new(Vec::new());
    let silenced = parse_with_parent("{set:x|5}", &mut parent, &NopContext, false).unwrap();
    assert_eq!(silenced, "");
    let read = parse_with_parent("{get:x}", &mut parent, &NopContext, true).unwrap();
    assert_eq!(read, "");
}

#[test]
fn job_options_keep_only_set_values() {
    let pairs = vec![
        ("radius".to_string(), Some(5u64)),
        ("sharpness".to_string(), None),
        ("brightness".to_string(), Some(12u64)),
    ];
    let opts = build_job_options(pairs);
    assert_eq!(opts.len(), 2);
    assert_eq!(opts[0].0, "radius");
    assert_eq!(opts[0].1, b"5".to_vec());
    assert_eq!(opts[1].0, "brightness");
    assert_eq!(opts[1].1, b"12".to_vec());
}

#[test]
fn job_options_of_nothing_are_empty() {
    assert!(build_job_options(Vec::new()).is_empty());
    assert!(build_job_options(vec![("radius".to_string(), None)]).is_empty());
}

#[test]
fn statm_second_field_in_bytes() {
    assert_eq!(parse_statm(&b"1195 403 120 1 0 115 0".to_vec()), Some(403 * 4096));
    assert_eq!(parse_statm(&b"  7  9  ".to_vec()), Some(9 * 4096));
}

#[test]
fn statm_rejects_bad_records() {
    assert_eq!(parse_statm(&b"".to_vec()), None);
    assert_eq!(parse_statm(&b"1195".to_vec()), None);
    assert_eq!(parse_statm(&b"1195 x 3".to_vec()), None);
    assert_eq!(parse_statm(&b"1 99999999999999999999".to_vec()), None);
}
