//! Platform text utilities: mention parsing, message links, timestamps and
//! avatar URLs.
//!
//! A mention is scanned directly: the first maximal digit run of at least 16
//! digits anywhere in the text is the candidate id, its first 20 digits at
//! most are captured, and the capture must fit in a `u64`.  Prefixes such as
//! `<@`, `<@!` or `<#` and a trailing `>` need not be present and never
//! change the captured digits.  A digit here is an ASCII digit: a digit of
//! another script adjacent to a run ends the run rather than joining it, so
//! text mixing scripts into one run of sixteen characters names no id.

use vstd::prelude::*;
use vstd::string::StrSliceExecFns;
use vstd::string::StringSliceAdditionalSpecFns;
use vstd::utf8::{encode_utf8, encode_utf8_valid_utf8, valid_utf8};

use crate::text::{all_digits, copy_range, dec_bytes, dec_value, is_digit, lemma_ascii_valid,
    lemma_dec_bytes_digits, parse_u64, u64_to_dec};

verus! {

/// Timestamps above this cannot be rendered by the platform's own timestamp
/// markup.
pub const MAX_TIMESTAMP: u64 = 8640000000000000;

/// Length of the digit run that starts at position `i`.
pub open spec fn digit_run_len(s: Seq<u8>, i: int) -> int
    decreases s.len() - i,
{
    if i < 0 || i >= s.len() || !is_digit(s[i]) {
        0
    } else {
        1 + digit_run_len(s, i + 1)
    }
}

/// Position `i` begins a maximal digit run.
pub open spec fn run_start(s: Seq<u8>, i: int) -> bool {
    0 <= i < s.len() && is_digit(s[i]) && (i == 0 || !is_digit(s[i - 1]))
}

/// The first position at or after `i` that starts a digit run of at least 16
/// digits; the sequence length when there is none.
pub open spec fn find_run(s: Seq<u8>, i: int) -> int
    decreases s.len() - i,
{
    if i >= s.len() {
        s.len() as int
    } else if run_start(s, i) && digit_run_len(s, i) >= 16 {
        i
    } else {
        find_run(s, i + 1)
    }
}

/// The id a mention names: the first 20 digits at most of the first digit
/// run of at least 16 digits, provided the value fits in a `u64`.
pub open spec fn mention_id(s: Seq<u8>) -> Option<u64> {
    let p = find_run(s, 0);
    if p == s.len() {
        None
    } else {
        let l = if digit_run_len(s, p) >= 20 {
            20int
        } else {
            digit_run_len(s, p)
        };
        let cap = s.subrange(p, p + l);
        if dec_value(cap) <= u64::MAX {
            Some(dec_value(cap) as u64)
        } else {
            None
        }
    }
}

proof fn lemma_run_len_scan(s: Seq<u8>, i: int, j: int)
    requires
        0 <= i <= j <= s.len(),
        forall|q: int| i <= q < j ==> is_digit(#[trigger] s[q]),
        j == s.len() || !is_digit(s[j as int]),
    ensures
        digit_run_len(s, i) == j - i,
    decreases j - i,
{
    if i == j {
    } else {
        lemma_run_len_scan(s, i + 1, j);
    }
}

proof fn lemma_skip_run(s: Seq<u8>, p: int, j: int)
    requires
        0 <= p <= j <= s.len(),
        forall|q: int| p <= q < j ==> is_digit(#[trigger] s[q]),
        digit_run_len(s, p) < 16,
    ensures
        find_run(s, p) == find_run(s, j),
    decreases j - p,
{
    if p == j {
    } else {
        assert(digit_run_len(s, p) == 1 + digit_run_len(s, p + 1));
        lemma_skip_run(s, p + 1, j);
    }
}

/// Scans the byte text for the mention id, if any.
#[verifier::loop_isolation(false)]
fn scan_mention(bytes: &Vec<u8>) -> (r: Option<u64>)
    ensures
        r == mention_id(bytes@),
{
    let ghost bs = bytes@;
    let n = bytes.len();
    let mut i: usize = 0;
    while i < n
        invariant
            0 <= i <= n,
            find_run(bs, 0) == find_run(bs, i as int),
            i < n && is_digit(bs[i as int]) ==> run_start(bs, i as int),
        decreases n - i,
    {
        let b = bytes[i];
        if 48 <= b && b <= 57 {
            let mut j: usize = i + 1;
            while j < n && 48 <= bytes[j] && bytes[j] <= 57
                invariant
                    i < j <= n,
                    forall|q: int| i <= q < j ==> is_digit(#[trigger] bs[q]),
                decreases n - j,
            {
                j += 1;
            }
            proof {
                lemma_run_len_scan(bs, i as int, j as int);
            }
            if j - i >= 16 {
                proof {
                    assert(find_run(bs, i as int) == i as int);
                }
                let l: usize = if j - i >= 20 {
                    20
                } else {
                    j - i
                };
                let cap = copy_range(bytes, i, i + l);
                proof {
                    assert(all_digits(cap@));
                }
                return parse_u64(&cap);
            } else {
                proof {
                    lemma_skip_run(bs, i as int, j as int);
                }
                i = j;
            }
        } else {
            proof {
                assert(!run_start(bs, i as int));
                assert(find_run(bs, i as int) == find_run(bs, i + 1));
            }
            i += 1;
        }
    }
    None
}

/// Extracts the user id a word mentions, if any.
pub fn id_from_mention(word: &str) -> (r: Option<u64>)
    ensures
        r == mention_id(word.spec_bytes()),
{
    let bytes: Vec<u8> = word.as_bytes_vec();
    scan_mention(&bytes)
}

/// Extracts the user id a text mentions, if any.
pub fn user_mention_to_id(s: &str) -> (r: Option<u64>)
    ensures
        r == mention_id(s.spec_bytes()),
{
    let bytes: Vec<u8> = s.as_bytes_vec();
    scan_mention(&bytes)
}

/// Extracts the channel id a text mentions, if any.
pub fn channel_mention_to_id(s: &str) -> (r: Option<u64>)
    ensures
        r == mention_id(s.spec_bytes()),
{
    let bytes: Vec<u8> = s.as_bytes_vec();
    scan_mention(&bytes)
}

/// The bytes of a guild message link.
pub open spec fn message_link_bytes(guild_id: u64, channel_id: u64, message_id: u64) -> Seq<u8> {
    "https://discord.com/channels/".spec_bytes() + dec_bytes(guild_id as nat)
        + "/".spec_bytes() + dec_bytes(channel_id as nat) + "/".spec_bytes() + dec_bytes(
        message_id as nat,
    )
}

/// The bytes of a direct-message link.
pub open spec fn dm_message_link_bytes(channel_id: u64, message_id: u64) -> Seq<u8> {
    "https://discord.com/channels/@me/".spec_bytes() + dec_bytes(channel_id as nat)
        + "/".spec_bytes() + dec_bytes(message_id as nat)
}

proof fn lemma_valid_concat3(a: Seq<u8>, b: Seq<u8>, c: Seq<u8>)
    requires
        valid_utf8(a),
        valid_utf8(b),
        valid_utf8(c),
    ensures
        valid_utf8(a + b + c),
{
    vstd::utf8::valid_utf8_concat(a, b);
    vstd::utf8::valid_utf8_concat(a + b, c);
}

proof fn lemma_valid_concat6(a: Seq<u8>, b: Seq<u8>, c: Seq<u8>, d: Seq<u8>, e: Seq<u8>, f: Seq<u8>)
    requires
        valid_utf8(a),
        valid_utf8(b),
        valid_utf8(c),
        valid_utf8(d),
        valid_utf8(e),
        valid_utf8(f),
    ensures
        valid_utf8(a + b + c + d + e + f),
{
    vstd::utf8::valid_utf8_concat(a, b);
    vstd::utf8::valid_utf8_concat(a + b, c);
    vstd::utf8::valid_utf8_concat(a + b + c, d);
    vstd::utf8::valid_utf8_concat(a + b + c + d, e);
    vstd::utf8::valid_utf8_concat(a + b + c + d + e, f);
}

/// The digits of a numeral are valid UTF-8.
proof fn lemma_dec_valid(n: nat)
    ensures
        valid_utf8(dec_bytes(n)),
{
    lemma_dec_bytes_digits(n);
    assert forall|i: int| 0 <= i < dec_bytes(n).len() implies #[trigger] dec_bytes(n)[i]
        < 128 by {
        assert(is_digit(dec_bytes(n)[i]));
    }
    lemma_ascii_valid(dec_bytes(n));
}

/// Generates a message link.
pub fn message_link(guild_id: u64, channel_id: u64, message_id: u64) -> (r: String)
    ensures
        encode_utf8(r@) == message_link_bytes(guild_id, channel_id, message_id),
{
    let mut out: Vec<u8> = Vec::new();
    out.extend_from_slice("https://discord.com/channels/".as_bytes());
    let g = u64_to_dec(guild_id);
    out.extend_from_slice(g.as_slice());
    out.extend_from_slice("/".as_bytes());
    let c = u64_to_dec(channel_id);
    out.extend_from_slice(c.as_slice());
    out.extend_from_slice("/".as_bytes());
    let m = u64_to_dec(message_id);
    out.extend_from_slice(m.as_slice());
    proof {
        assert(out@ =~= message_link_bytes(guild_id, channel_id, message_id));
        encode_utf8_valid_utf8("https://discord.com/channels/"@);
        encode_utf8_valid_utf8("/"@);
        lemma_dec_valid(guild_id as nat);
        lemma_dec_valid(channel_id as nat);
        lemma_dec_valid(message_id as nat);
        lemma_valid_concat6(
            "https://discord.com/channels/".spec_bytes(),
            dec_bytes(guild_id as nat),
            "/".spec_bytes(),
            dec_bytes(channel_id as nat),
            "/".spec_bytes(),
            dec_bytes(message_id as nat),
        );
    }
    crate::string_from_utf8(out)
}

/// Generates a direct-message link.
pub fn dm_message_link(channel_id: u64, message_id: u64) -> (r: String)
    ensures
        encode_utf8(r@) == dm_message_link_bytes(channel_id, message_id),
{
    let mut out: Vec<u8> = Vec::new();
    out.extend_from_slice("https://discord.com/channels/@me/".as_bytes());
    let c = u64_to_dec(channel_id);
    out.extend_from_slice(c.as_slice());
    out.extend_from_slice("/".as_bytes());
    let m = u64_to_dec(message_id);
    out.extend_from_slice(m.as_slice());
    proof {
        assert(out@ =~= dm_message_link_bytes(channel_id, message_id));
        encode_utf8_valid_utf8("https://discord.com/channels/@me/"@);
        encode_utf8_valid_utf8("/"@);
        lemma_dec_valid(channel_id as nat);
        lemma_dec_valid(message_id as nat);
        vstd::utf8::valid_utf8_concat(
            "https://discord.com/channels/@me/".spec_bytes(),
            dec_bytes(channel_id as nat),
        );
        lemma_valid_concat3(
            "https://discord.com/channels/@me/".spec_bytes() + dec_bytes(channel_id as nat),
            "/".spec_bytes(),
            dec_bytes(message_id as nat),
        );
    }
    crate::string_from_utf8(out)
}

/// The bytes of a platform-rendered relative timestamp.
pub open spec fn discord_timestamp_bytes(input: u64) -> Seq<u8> {
    if input <= MAX_TIMESTAMP {
        "<t:".spec_bytes() + dec_bytes((input / 1000) as nat) + ":R>".spec_bytes()
    } else {
        dec_bytes(input as nat) + " ms".spec_bytes()
    }
}

/// Renders a millisecond timestamp as the platform's relative timestamp
/// markup; a value too large for the platform to render falls back to the
/// plain millisecond count.
pub fn format_discord_timestamp(input: u64) -> (r: String)
    ensures
        encode_utf8(r@) == discord_timestamp_bytes(input),
{
    let mut out: Vec<u8> = Vec::new();
    if input <= MAX_TIMESTAMP {
        out.extend_from_slice("<t:".as_bytes());
        let d = u64_to_dec(input / 1000);
        out.extend_from_slice(d.as_slice());
        out.extend_from_slice(":R>".as_bytes());
        proof {
            encode_utf8_valid_utf8("<t:"@);
            encode_utf8_valid_utf8(":R>"@);
            lemma_dec_valid((input / 1000) as nat);
            lemma_valid_concat3(
                "<t:".spec_bytes(),
                dec_bytes((input / 1000) as nat),
                ":R>".spec_bytes(),
            );
            assert(out@ =~= discord_timestamp_bytes(input));
        }
    } else {
        let d = u64_to_dec(input);
        out.extend_from_slice(d.as_slice());
        out.extend_from_slice(" ms".as_bytes());
        proof {
            encode_utf8_valid_utf8(" ms"@);
            lemma_dec_valid(input as nat);
            vstd::utf8::valid_utf8_concat(dec_bytes(input as nat), " ms".spec_bytes());
            assert(out@ =~= discord_timestamp_bytes(input));
        }
    }
    crate::string_from_utf8(out)
}

/// What the avatar logic reads of a platform user: the id, the display name,
/// the discriminator and the avatar hash, as plain values.
pub struct User {
    pub id: u64,
    pub name: String,
    pub discriminator: u16,
    pub avatar: Option<String>,
}

/// The index of the default avatar a user without an avatar hash gets.
pub open spec fn default_avatar_index(user: User) -> u64 {
    if user.discriminator == 0 {
        (user.id >> 22) % 6
    } else {
        (user.discriminator % 5) as u64
    }
}

/// The bytes of the default avatar URL.
pub open spec fn default_avatar_url_bytes(user: User) -> Seq<u8> {
    "https://cdn.discordapp.com/embed/avatars/".spec_bytes() + dec_bytes(
        default_avatar_index(user) as nat,
    ) + ".png?size=1024".spec_bytes()
}

/// The URL of the default avatar for a user without an avatar hash.
pub fn get_default_avatar_url(user: &User) -> (r: String)
    ensures
        encode_utf8(r@) == default_avatar_url_bytes(*user),
{
    let index: u64 = if user.discriminator == 0 {
        (user.id >> 22u64) % 6
    } else {
        (user.discriminator % 5) as u64
    };
    let mut out: Vec<u8> = Vec::new();
    out.extend_from_slice("https://cdn.discordapp.com/embed/avatars/".as_bytes());
    let d = u64_to_dec(index);
    out.extend_from_slice(d.as_slice());
    out.extend_from_slice(".png?size=1024".as_bytes());
    proof {
        encode_utf8_valid_utf8("https://cdn.discordapp.com/embed/avatars/"@);
        encode_utf8_valid_utf8(".png?size=1024"@);
        lemma_dec_valid(index as nat);
        lemma_valid_concat3(
            "https://cdn.discordapp.com/embed/avatars/".spec_bytes(),
            dec_bytes(index as nat),
            ".png?size=1024".spec_bytes(),
        );
        assert(out@ =~= default_avatar_url_bytes(*user));
    }
    crate::string_from_utf8(out)
}

/// An avatar hash that names an animated avatar.
pub open spec fn animated_hash(h: Seq<u8>) -> bool {
    h.len() >= 2 && h[0] == 97 && h[1] == 95
}

/// The bytes of a user's avatar URL.
pub open spec fn avatar_url_bytes(user: User) -> Seq<u8> {
    match user.avatar {
        Option::None => default_avatar_url_bytes(user),
        Option::Some(av) => "https://cdn.discordapp.com/avatars/".spec_bytes() + dec_bytes(
            user.id as nat,
        ) + "/".spec_bytes() + encode_utf8(av@) + (if animated_hash(encode_utf8(av@)) {
            ".gif?size=1024".spec_bytes()
        } else {
            ".png?size=1024".spec_bytes()
        }),
    }
}

/// The URL of a user's avatar, animated where the hash says so; a user
/// without an avatar hash gets the default avatar URL.
pub fn get_avatar_url(user: &User) -> (r: String)
    ensures
        encode_utf8(r@) == avatar_url_bytes(*user),
{
    let avatar = match &user.avatar {
        Some(av) => av,
        None => {
            return get_default_avatar_url(user);
        },
    };
    let hash: Vec<u8> = avatar.as_str().as_bytes_vec();
    let animated = hash.len() >= 2 && hash[0] == 97 && hash[1] == 95;
    let mut out: Vec<u8> = Vec::new();
    out.extend_from_slice("https://cdn.discordapp.com/avatars/".as_bytes());
    let d = u64_to_dec(user.id);
    out.extend_from_slice(d.as_slice());
    out.extend_from_slice("/".as_bytes());
    out.extend_from_slice(hash.as_slice());
    if animated {
        out.extend_from_slice(".gif?size=1024".as_bytes());
    } else {
        out.extend_from_slice(".png?size=1024".as_bytes());
    }
    proof {
        assert(out@ =~= avatar_url_bytes(*user));
        encode_utf8_valid_utf8("https://cdn.discordapp.com/avatars/"@);
        encode_utf8_valid_utf8("/"@);
        encode_utf8_valid_utf8(".gif?size=1024"@);
        encode_utf8_valid_utf8(".png?size=1024"@);
        lemma_dec_valid(user.id as nat);
        encode_utf8_valid_utf8(avatar@);
        vstd::utf8::valid_utf8_concat(
            "https://cdn.discordapp.com/avatars/".spec_bytes(),
            dec_bytes(user.id as nat),
        );
        vstd::utf8::valid_utf8_concat(
            "https://cdn.discordapp.com/avatars/".spec_bytes() + dec_bytes(user.id as nat),
            "/".spec_bytes(),
        );
        vstd::utf8::valid_utf8_concat(
            "https://cdn.discordapp.com/avatars/".spec_bytes() + dec_bytes(user.id as nat)
                + "/".spec_bytes(),
            encode_utf8(avatar@),
        );
        vstd::utf8::valid_utf8_concat(
            "https://cdn.discordapp.com/avatars/".spec_bytes() + dec_bytes(user.id as nat)
                + "/".spec_bytes() + encode_utf8(avatar@),
            ".gif?size=1024".spec_bytes(),
        );
        vstd::utf8::valid_utf8_concat(
            "https://cdn.discordapp.com/avatars/".spec_bytes() + dec_bytes(user.id as nat)
                + "/".spec_bytes() + encode_utf8(avatar@),
            ".png?size=1024".spec_bytes(),
        );
    }
    crate::string_from_utf8(out)
}

/// The bytes of a user's classic tag: name, `#`, discriminator.
pub open spec fn format_tag_bytes(user: User) -> Seq<u8> {
    encode_utf8(user.name@) + "#".spec_bytes() + dec_bytes(user.discriminator as nat)
}

/// Renders a user's classic tag.
pub fn format_tag(user: &User) -> (r: String)
    ensures
        encode_utf8(r@) == format_tag_bytes(*user),
{
    let mut out: Vec<u8> = user.name.as_str().as_bytes_vec();
    out.extend_from_slice("#".as_bytes());
    let d = u64_to_dec(user.discriminator as u64);
    out.extend_from_slice(d.as_slice());
    proof {
        assert(out@ =~= format_tag_bytes(*user));
        encode_utf8_valid_utf8(user.name@);
        encode_utf8_valid_utf8("#"@);
        lemma_dec_valid(user.discriminator as nat);
        vstd::utf8::valid_utf8_concat(encode_utf8(user.name@), "#".spec_bytes());
        vstd::utf8::valid_utf8_concat(
            encode_utf8(user.name@) + "#".spec_bytes(),
            dec_bytes(user.discriminator as nat),
        );
    }
    crate::string_from_utf8(out)
}

} // verus!
