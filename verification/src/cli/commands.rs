//! The commands a user types at a running node's prompt, read from the words
//! of one line.
use vstd::prelude::*;
use vstd::string::StringSliceAdditionalSpecFns;
use crate::cli::args::{str_eq, texts};
use crate::kademlia::key::{key_from_hex_spec, Key, KeyError};

verus! {

/// A command typed at the prompt.
#[derive(Debug, Clone)]
pub enum Command {
    /// `ping <key>`: ping the node with that key.
    Ping(Key),
    /// `find_node <key>`: look up the nodes closest to the key.
    FindNode(Key),
    /// `upload <filepath>`: upload a file.
    Upload(String),
    /// `download <file_handle> <storage_dir>`: download a file into a directory.
    Download { file_handle: String, storage_dir: String },
    /// `dump_rt`: show the routing table.
    DumpRoutingTable,
    /// `dump_chunks`: show the chunks this node keeps.
    DumpChunks,
    /// `ping` or `find_node` with a key that is not `2 * K` hexadecimal digits.
    InvalidKey(KeyError),
    /// Any other line; carries its first word.
    Unknown(String),
}

/// `c` is the command that the (non-empty) words `words` read as: `ping` and
/// `find_node` take one key, `upload` one path, `download` a handle and a
/// directory, `dump_rt` and `dump_chunks` nothing; anything else is unknown.
pub open spec fn reads_as(words: Seq<Seq<char>>, c: Command) -> bool {
    let w = words[0];
    let n = words.len();
    if w == "ping"@ && n == 2 {
        match key_from_hex_spec(vstd::utf8::encode_utf8(words[1])) {
            Ok(k) => c matches Command::Ping(key) && key@ == k,
            Err(e) => c == Command::InvalidKey(e),
        }
    } else if w == "find_node"@ && n == 2 {
        match key_from_hex_spec(vstd::utf8::encode_utf8(words[1])) {
            Ok(k) => c matches Command::FindNode(key) && key@ == k,
            Err(e) => c == Command::InvalidKey(e),
        }
    } else if w == "upload"@ && n == 2 {
        c matches Command::Upload(p) && p@ == words[1]
    } else if w == "download"@ && n == 3 {
        c matches Command::Download { file_handle, storage_dir } && file_handle@ == words[1] && storage_dir@
            == words[2]
    } else if w == "dump_rt"@ && n == 1 {
        c is DumpRoutingTable
    } else if w == "dump_chunks"@ && n == 1 {
        c is DumpChunks
    } else {
        c matches Command::Unknown(u) && u@ == w
    }
}

/// Reads a key command's argument.
fn key_command(text: &String, ping: bool) -> (c: Command)
    ensures
        match key_from_hex_spec(vstd::utf8::encode_utf8(text@)) {
            Ok(k) => if ping {
                c matches Command::Ping(key) && key@ == k
            } else {
                c matches Command::FindNode(key) && key@ == k
            },
            Err(e) => c == Command::InvalidKey(e),
        },
{
    match Key::from_hex_str(text.as_str()) {
        Ok(key) => if ping {
            Command::Ping(key)
        } else {
            Command::FindNode(key)
        },
        Err(e) => Command::InvalidKey(e),
    }
}

/// The command the words of a prompt line read as; `None` for a line without
/// words.
pub fn parse_command(words: &Vec<String>) -> (r: Option<Command>)
    ensures
        match r {
            None => words@.len() == 0,
            Some(c) => words@.len() > 0 && reads_as(texts(words@), c),
        },
{
    let n: usize = words.len();
    if n == 0 {
        return None;
    }
    let w = words[0].as_str();
    let ghost ws = texts(words@);
    assert(ws[0] == w@);
    if n >= 2 {
        assert(ws[1] == words@[1]@);
    }
    if n >= 3 {
        assert(ws[2] == words@[2]@);
    }
    let c = if str_eq(w, "ping") && n == 2 {
        key_command(&words[1], true)
    } else if str_eq(w, "find_node") && n == 2 {
        key_command(&words[1], false)
    } else if str_eq(w, "upload") && n == 2 {
        Command::Upload(words[1].clone())
    } else if str_eq(w, "download") && n == 3 {
        Command::Download { file_handle: words[1].clone(), storage_dir: words[2].clone() }
    } else if str_eq(w, "dump_rt") && n == 1 {
        Command::DumpRoutingTable
    } else if str_eq(w, "dump_chunks") && n == 1 {
        Command::DumpChunks
    } else {
        Command::Unknown(words[0].clone())
    };
    Some(c)
}

} // verus!
