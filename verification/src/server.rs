//! The Minecraft server the game is told to join.

use vstd::prelude::*;
use vstd::string::*;
use crate::text::{find_char, first_index_of, lemma_index_of_from, parse_u16, parsed_u16};

verus! {

/// The server address, `host:port`.
pub const MINECRAFT_SERVER: &'static str = "37.9.13.3:32991";

/// The port used when the address names no valid one.
pub const DEFAULT_MINECRAFT_PORT: u16 = 25565;

/// What splitting `s` at `:` gives: the host is the text before the first
/// `:` (all of `s` if there is none); the port is the text between the
/// first and the second `:` parsed as a `u16`, or 25565 where that fails.
pub open spec fn server_address(s: Seq<char>) -> (Seq<char>, u16) {
    let i = first_index_of(s, ':');
    if i < 0 {
        (s, DEFAULT_MINECRAFT_PORT)
    } else {
        let rest = s.skip(i + 1);
        let j = first_index_of(rest, ':');
        let second = if j < 0 {
            rest
        } else {
            rest.take(j)
        };
        (
            s.take(i),
            match parsed_u16(second) {
                Some(p) => p,
                None => DEFAULT_MINECRAFT_PORT,
            },
        )
    }
}

/// Splits a `host:port` address the way the server address is read.
pub fn split_server_address(s: &str) -> (r: (String, u16))
    ensures
        (r.0@, r.1) == server_address(s@),
{
    let n = s.unicode_len();
    match find_char(s, ':') {
        None => (String::from_str(s), DEFAULT_MINECRAFT_PORT),
        Some(i) => {
            proof {
                lemma_index_of_from(s@, ':', 0);
            }
            let host = s.substring_char(0, i);
            let rest = s.substring_char(i + 1, n);
            let m = rest.unicode_len();
            let second = match find_char(rest, ':') {
                None => rest,
                Some(j) => {
                    proof {
                        lemma_index_of_from(rest@, ':', 0);
                    }
                    rest.substring_char(0, j)
                },
            };
            let port = match parse_u16(second) {
                Some(p) => p,
                None => DEFAULT_MINECRAFT_PORT,
            };
            (String::from_str(host), port)
        },
    }
}

/// The host and port of the Minecraft server.
pub fn minecraft_server() -> (r: (String, u16))
    ensures
        (r.0@, r.1) == server_address(MINECRAFT_SERVER@),
        r.0@ == "37.9.13.3"@,
        r.1 == 32991,
{
    let r = split_server_address(MINECRAFT_SERVER);
    proof {
        reveal_strlit("37.9.13.3:32991");
        reveal_strlit("37.9.13.3");
        let s = MINECRAFT_SERVER@;
        assert(s.len() == 15);
        assert(first_index_of(s, ':') == 9) by {
            reveal_with_fuel(crate::text::index_of_from, 11);
        }
        let rest = s.skip(10);
        assert(first_index_of(rest, ':') == -1) by {
            reveal_with_fuel(crate::text::index_of_from, 7);
        }
        assert(s.take(9) =~= "37.9.13.3"@);
        assert(crate::text::decimal_value(rest, 0, 5) == 32991) by {
            reveal_with_fuel(crate::text::decimal_value, 6);
        }
    }
    r
}

} // verus!
