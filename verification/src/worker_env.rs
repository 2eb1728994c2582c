//! The SFU worker's environment: log settings, the announce-address rule
//! and the controller URL's unix-socket form.

use vstd::prelude::*;

use crate::text::{ascii, bytes_eq, first_sep, lit, starts_with};

verus! {

/// An IP address as the registry reasons about it: the four octets of a
/// version-4 address, or the eight groups of a version-6 one.
#[derive(PartialEq, Eq, Structural, Clone, Copy)]
pub enum IpModel {
    V4(u8, u8, u8, u8),
    V6(u64, u64),
}

/// Whether an address is a loopback or unspecified one; a browser will
/// not connect to either, so neither may be announced.
pub open spec fn loopback_or_unspecified(ip: IpModel) -> bool {
    match ip {
        IpModel::V4(a, b, c, d) => a == 127 || (a == 0 && b == 0 && c == 0 && d == 0),
        IpModel::V6(hi, lo) => hi == 0 && (lo == 0 || lo == 1),
    }
}

/// Decides whether an address may be announced to peers: everything but
/// loopback and unspecified addresses.
pub fn allowed_announce_ip(address: IpModel) -> (r: bool)
    ensures
        r == !loopback_or_unspecified(address),
{
    match address {
        IpModel::V4(a, b, c, d) => !(a == 127 || (a == 0 && b == 0 && c == 0 && d == 0)),
        IpModel::V6(hi, lo) => !(hi == 0 && (lo == 0 || lo == 1)),
    }
}

/// The worker's log levels.
#[derive(Debug, PartialEq, Eq, Structural, Clone, Copy)]
pub enum LogLevelModel {
    Debug,
    Warn,
    Error,
    Silent,
}

/// Which log level a word names: anything unknown is silence.
pub open spec fn log_level_spec(s: Seq<u8>) -> LogLevelModel {
    if s == ascii("debug"@) {
        LogLevelModel::Debug
    } else if s == ascii("warn"@) {
        LogLevelModel::Warn
    } else if s == ascii("error"@) {
        LogLevelModel::Error
    } else {
        LogLevelModel::Silent
    }
}

/// Reads the worker's log level from its configuration word.
pub fn parse_log_level(s: &[u8]) -> (r: LogLevelModel)
    ensures
        r == log_level_spec(s@),
{
    proof {
        reveal_strlit("debug");
        reveal_strlit("warn");
        reveal_strlit("error");
    }
    if bytes_eq(s, lit("debug").as_slice()) {
        LogLevelModel::Debug
    } else if bytes_eq(s, lit("warn").as_slice()) {
        LogLevelModel::Warn
    } else if bytes_eq(s, lit("error").as_slice()) {
        LogLevelModel::Error
    } else {
        LogLevelModel::Silent
    }
}

/// The worker's log tags.
#[derive(Debug, PartialEq, Eq, Structural, Clone, Copy)]
pub enum LogTagModel {
    Info,
    Ice,
    Dtls,
    Rtp,
    Srtp,
    Rtcp,
    Rtx,
    Bwe,
    Score,
    Simulcast,
    Svc,
    Sctp,
    Message,
}

/// Which log tag a word names: the empty word names none, and an unknown
/// word is a configuration error.
pub open spec fn log_tag_spec(s: Seq<u8>) -> Result<Option<LogTagModel>, ()> {
    if s.len() == 0 {
        Ok(None)
    } else if s == ascii("info"@) {
        Ok(Some(LogTagModel::Info))
    } else if s == ascii("ice"@) {
        Ok(Some(LogTagModel::Ice))
    } else if s == ascii("dtls"@) {
        Ok(Some(LogTagModel::Dtls))
    } else if s == ascii("rtp"@) {
        Ok(Some(LogTagModel::Rtp))
    } else if s == ascii("srtp"@) {
        Ok(Some(LogTagModel::Srtp))
    } else if s == ascii("rtcp"@) {
        Ok(Some(LogTagModel::Rtcp))
    } else if s == ascii("rtx"@) {
        Ok(Some(LogTagModel::Rtx))
    } else if s == ascii("bwe"@) {
        Ok(Some(LogTagModel::Bwe))
    } else if s == ascii("score"@) {
        Ok(Some(LogTagModel::Score))
    } else if s == ascii("simulcast"@) {
        Ok(Some(LogTagModel::Simulcast))
    } else if s == ascii("svc"@) {
        Ok(Some(LogTagModel::Svc))
    } else if s == ascii("sctp"@) {
        Ok(Some(LogTagModel::Sctp))
    } else if s == ascii("message"@) {
        Ok(Some(LogTagModel::Message))
    } else {
        Err(())
    }
}

/// Reads one worker log tag from its configuration word.
pub fn parse_log_tag(s: &[u8]) -> (r: Result<Option<LogTagModel>, ()>)
    ensures
        r == log_tag_spec(s@),
{
    proof {
        reveal_strlit("info");
        reveal_strlit("ice");
        reveal_strlit("dtls");
        reveal_strlit("rtp");
        reveal_strlit("srtp");
        reveal_strlit("rtcp");
        reveal_strlit("rtx");
        reveal_strlit("bwe");
        reveal_strlit("score");
        reveal_strlit("simulcast");
        reveal_strlit("svc");
        reveal_strlit("sctp");
        reveal_strlit("message");
    }
    if s.len() == 0 {
        Ok(None)
    } else if bytes_eq(s, lit("info").as_slice()) {
        Ok(Some(LogTagModel::Info))
    } else if bytes_eq(s, lit("ice").as_slice()) {
        Ok(Some(LogTagModel::Ice))
    } else if bytes_eq(s, lit("dtls").as_slice()) {
        Ok(Some(LogTagModel::Dtls))
    } else if bytes_eq(s, lit("rtp").as_slice()) {
        Ok(Some(LogTagModel::Rtp))
    } else if bytes_eq(s, lit("srtp").as_slice()) {
        Ok(Some(LogTagModel::Srtp))
    } else if bytes_eq(s, lit("rtcp").as_slice()) {
        Ok(Some(LogTagModel::Rtcp))
    } else if bytes_eq(s, lit("rtx").as_slice()) {
        Ok(Some(LogTagModel::Rtx))
    } else if bytes_eq(s, lit("bwe").as_slice()) {
        Ok(Some(LogTagModel::Bwe))
    } else if bytes_eq(s, lit("score").as_slice()) {
        Ok(Some(LogTagModel::Score))
    } else if bytes_eq(s, lit("simulcast").as_slice()) {
        Ok(Some(LogTagModel::Simulcast))
    } else if bytes_eq(s, lit("svc").as_slice()) {
        Ok(Some(LogTagModel::Svc))
    } else if bytes_eq(s, lit("sctp").as_slice()) {
        Ok(Some(LogTagModel::Sctp))
    } else if bytes_eq(s, lit("message").as_slice()) {
        Ok(Some(LogTagModel::Message))
    } else {
        Err(())
    }
}

/// Whether the controller URL asks for the unix-domain-socket transport.
pub open spec fn unix_scheme(url: Seq<u8>) -> bool {
    url.len() >= ascii("ws://unix/"@).len() && url.take(ascii("ws://unix/"@).len() as int)
        == ascii("ws://unix/"@)
}

/// Checks for the unix-domain-socket URL form.
pub fn is_unix_scheme(url: &[u8]) -> (r: bool)
    ensures
        r == unix_scheme(url@),
{
    proof {
        reveal_strlit("ws://unix/");
    }
    let p = lit("ws://unix/");
    starts_with(url, p.as_slice())
}

/// Where a unix-socket controller URL splits: the first colon separates
/// the scheme, the second separates the upgrade path from the filesystem
/// path.
pub open spec fn second_colon(url: Seq<u8>) -> int {
    let c1 = first_sep(url, ':' as u8);
    if c1 == url.len() {
        url.len() as int
    } else {
        c1 + 1 + first_sep(url.skip(c1 + 1), ':' as u8)
    }
}

/// Splits a unix-socket controller URL at its second colon into the HTTP
/// upgrade path and the filesystem socket path; a URL without two colons
/// is malformed.
pub fn split_unix_url(url: &[u8]) -> (r: Option<(Vec<u8>, Vec<u8>)>)
    ensures
        match r {
            Some(parts) => {
                &&& second_colon(url@) < url@.len()
                &&& parts.0@ == url@.take(second_colon(url@))
                &&& parts.1@ == url@.skip(second_colon(url@) + 1)
            },
            None => second_colon(url@) >= url@.len(),
        },
{
    let c1 = crate::text::find_from(url, 0, ':' as u8);
    proof {
        crate::text::lemma_first_sep_is(url@, ':' as u8, c1 as int);
    }
    if c1 == url.len() {
        return None;
    }
    let c2 = crate::text::find_from(url, c1 + 1, ':' as u8);
    proof {
        let rest = url@.skip(c1 + 1);
        assert forall|j: int| 0 <= j < c2 - c1 - 1 implies rest[j] != ':' as u8 by {
            assert(url@[j + c1 + 1] != ':' as u8);
        }
        crate::text::lemma_first_sep_is(rest, ':' as u8, c2 - c1 - 1);
    }
    if c2 == url.len() {
        return None;
    }
    let http_path = vstd::slice::slice_to_vec(vstd::slice::slice_subrange(url, 0, c2));
    let fs_path = vstd::slice::slice_to_vec(
        vstd::slice::slice_subrange(url, c2 + 1, url.len()),
    );
    proof {
        assert(http_path@ =~= url@.take(c2 as int));
        assert(fs_path@ =~= url@.skip(c2 + 1));
    }
    Some((http_path, fs_path))
}

} // verus!
