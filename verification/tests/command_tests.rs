use p2p::cli::commands::{parse_command, Command};
use p2p::kademlia::key::{Key, KeyError};

fn words(line: &str) -> Vec<String> {
    line.split_whitespace().map(String::from).collect()
}

#[test]
fn prompt_commands_are_read() {
    let key = Key::from_bytes([0xab; 20]);
    let hex = key.to_hex_string();
    assert!(parse_command(&words("   ")).is_none());
    assert!(matches!(parse_command(&words(&format!("ping {}", hex))), Some(Command::Ping(k)) if k == key));
    assert!(matches!(parse_command(&words(&format!("find_node {}", hex))), Some(Command::FindNode(k)) if k == key));
    assert!(matches!(
        parse_command(&words("ping abc")),
        Some(Command::InvalidKey(KeyError::WrongHexStringLength { expected: 40, got: 3 }))
    ));
    assert!(matches!(parse_command(&words("upload a.txt")), Some(Command::Upload(p)) if p == "a.txt"));
    assert!(matches!(
        parse_command(&words("download h dir")),
        Some(Command::Download { file_handle, storage_dir }) if file_handle == "h" && storage_dir == "dir"
    ));
    assert!(matches!(parse_command(&words("dump_rt")), Some(Command::DumpRoutingTable)));
    assert!(matches!(parse_command(&words("dump_chunks")), Some(Command::DumpChunks)));
    assert!(matches!(parse_command(&words("dump_rt extra")), Some(Command::Unknown(w)) if w == "dump_rt"));
    assert!(matches!(parse_command(&words("ping")), Some(Command::Unknown(w)) if w == "ping"));
}
