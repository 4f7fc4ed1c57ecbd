//! The form that adds a server: which entries it refuses, and what it saves.

use vstd::prelude::*;

use crate::connection::params::SslMode;
use crate::text::{
    decimal, digits_value, is_digit, is_white, lemma_digits_value_grows, lemma_trim_bounds, parse_u32, parse_u32_chars, push_char, string_of, trim,
    trimmed, unsigned_digits, write_decimal,
};

verus! {

/// Why the form cannot be saved yet.
#[derive(Debug, Clone, Copy, PartialEq, Eq, Structural)]
pub enum ServerFormError {
    /// The host is empty, or only white space.
    MissingHost,
    /// The port is not a number from 0 to 65535.
    InvalidPort,
}

/// What the form saves, apart from the id the new server is given.
#[derive(Debug)]
pub struct ServerFields {
    pub label: String,
    pub host: String,
    pub port: u16,
    pub database: String,
    pub user: String,
    pub ssl_mode: SslMode,
}

/// What `s.parse::<u16>().ok()` gives.
pub open spec fn parse_u16(s: Seq<char>) -> Option<u16> {
    match parse_u32(s) {
        Some(v) => if v <= u16::MAX {
            Some(v as u16)
        } else {
            None
        },
        None => None,
    }
}

/// The TLS choice in the drop-down: the first is Disable, the third
/// Require, anything else Prefer.
pub open spec fn ssl_choice(selected: u32) -> SslMode {
    if selected == 0 {
        SslMode::Disable
    } else if selected == 2 {
        SslMode::Require
    } else {
        SslMode::Prefer
    }
}

/// The label a server is saved under: the one typed, trimmed, or
/// `host:port` when none was.
pub open spec fn label_for(label: Seq<char>, host: Seq<char>, port: u16) -> Seq<char> {
    if trim(label).len() == 0 {
        trim(host) + ":"@ + decimal(port as int)
    } else {
        trim(label)
    }
}

/// Reads the form. The host must not be blank and the port must be a port
/// number; every text is trimmed; the label defaults to `host:port`.
pub fn read_server_form(
    host: &str,
    port: &str,
    label: &str,
    database: &str,
    user: &str,
    ssl_selected: u32,
) -> (fields: Result<ServerFields, ServerFormError>)
    ensures
        trim(host@).len() == 0 ==> fields == Err::<ServerFields, ServerFormError>(ServerFormError::MissingHost),
        trim(host@).len() > 0 && parse_u16(trim(port@)) is None ==> fields == Err::<ServerFields, ServerFormError>(
            ServerFormError::InvalidPort,
        ),
        fields is Ok <==> trim(host@).len() > 0 && parse_u16(trim(port@)) is Some,
        fields is Ok ==> ({
            let f = fields.unwrap();
            &&& Some(f.port) == parse_u16(trim(port@))
            &&& f.host@ == trim(host@)
            &&& f.label@ == label_for(label@, host@, f.port)
            &&& f.database@ == trim(database@)
            &&& f.user@ == trim(user@)
            &&& f.ssl_mode == ssl_choice(ssl_selected)
        }),
{
    let host_text = trimmed(host);
    if host_text.len() == 0 {
        return Err(ServerFormError::MissingHost);
    }
    let port_text = trimmed(port);
    let port_number: u16 = match parse_u32_chars(&port_text) {
        Some(v) => if v <= 65535 {
            v as u16
        } else {
            return Err(ServerFormError::InvalidPort);
        },
        None => {
            return Err(ServerFormError::InvalidPort);
        },
    };
    let host_string = string_of(&host_text);
    let label_text = trimmed(label);
    let label_string = if label_text.len() == 0 {
        let mut text = string_of(&host_text);
        push_char(&mut text, ':');
        write_decimal(port_number as u128, &mut text);
        proof {
            reveal_strlit(":");
        }
        assert(text@ =~= label_for(label@, host@, port_number));
        text
    } else {
        string_of(&label_text)
    };
    let ssl_mode = if ssl_selected == 0 {
        SslMode::Disable
    } else if ssl_selected == 2 {
        SslMode::Require
    } else {
        SslMode::Prefer
    };
    Ok(
        ServerFields {
            label: label_string,
            host: host_string,
            port: port_number,
            database: string_of(&trimmed(database)),
            user: string_of(&trimmed(user)),
            ssl_mode,
        },
    )
}

/// The drop-down's entries are Disable, Prefer and Require, in that order:
/// a server is saved with TLS disabled only from the first entry and
/// required only from the third, and every other entry prefers TLS.
pub proof fn lemma_tls_mode_follows_the_drop_down(selected: u32)
    ensures
        (ssl_choice(selected) == SslMode::Disable) == (selected == 0),
        (ssl_choice(selected) == SslMode::Require) == (selected == 2),
        (ssl_choice(selected) == SslMode::Prefer) == (selected != 0 && selected != 2),
{
}

/// What a saved server holds, given what was typed: the host as typed
/// without surrounding white space, and never blank; the port as the number
/// the digits typed spell; the label as typed and trimmed, or, left blank,
/// the saved host, a colon and the saved port; the database and user
/// trimmed; and the TLS mode of the drop-down entry.
pub proof fn lemma_a_saved_server_is_what_was_typed(
    host: Seq<char>,
    port: Seq<char>,
    label: Seq<char>,
    database: Seq<char>,
    user: Seq<char>,
    ssl_selected: u32,
    fields: ServerFields,
)
    requires
        trim(host).len() > 0,
        Some(fields.port) == parse_u16(trim(port)),
        fields.host@ == trim(host),
        fields.label@ == label_for(label, host, fields.port),
        fields.database@ == trim(database),
        fields.user@ == trim(user),
        fields.ssl_mode == ssl_choice(ssl_selected),
    ensures
        fields.host@.len() > 0 && !is_white(fields.host@[0]) && !is_white(fields.host@.last()),
        unsigned_digits(trim(port)).len() > 0,
        forall|i: int| 0 <= i < unsigned_digits(trim(port)).len() ==> is_digit(#[trigger] unsigned_digits(trim(port))[i]),
        digits_value(unsigned_digits(trim(port))) == fields.port as int,
        trim(label).len() == 0 ==> fields.label@ == fields.host@ + ":"@ + decimal(fields.port as int),
        trim(label).len() > 0 ==> fields.label@ == trim(label),
        (fields.ssl_mode == SslMode::Disable) == (ssl_selected == 0),
        (fields.ssl_mode == SslMode::Require) == (ssl_selected == 2),
        (fields.ssl_mode == SslMode::Prefer) == (ssl_selected != 0 && ssl_selected != 2),
{
    lemma_trim_bounds(host);
    let d = unsigned_digits(trim(port));
    lemma_digits_value_grows(d, 0);
    assert(0 <= digits_value(d) <= u32::MAX);
    assert(parse_u32(trim(port)) == Some(digits_value(d) as u32));
}

} // verus!
