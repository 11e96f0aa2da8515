use std::collections::HashMap;

use intra_codex::context::{
    pack_message_with_context, ContextPacker, FileProbe, MAX_CONTEXT_BYTES_PER_FILE,
    MAX_CONTEXT_BYTES_TOTAL, MAX_CONTEXT_FILES,
};
use intra_codex::paths::resolve_configured_dir;

const LIMITS: &str = "Context limits: max 12 files, 24576 bytes per file, 98304 bytes total.";
const INTRO: &str = "You are given selected project context files below. Use this context as the primary source of truth before making changes or answering.\n\n";

enum Entry {
    File(Vec<u8>),
    Dir,
    Broken(&'static str),
}

/// Drives a pack over an in-memory tree: paths are taken as already normalized.
fn pack(root: &str, content: &str, paths: &[&str], fs: &HashMap<String, Entry>) -> (String, usize) {
    let mut packer = ContextPacker::new(root.to_string(), paths.iter().map(|p| p.to_string()).collect());
    let mut probes = 0;
    while let Some(raw) = packer.next_path() {
        let path = resolve_configured_dir(root, &raw);
        if !packer.locate(&path) {
            continue;
        }
        probes += 1;
        let probe = match fs.get(&path) {
            Some(Entry::File(bytes)) => FileProbe::Read(bytes.clone()),
            Some(Entry::Dir) | None => FileProbe::NotAFile,
            Some(Entry::Broken(e)) => FileProbe::Failed(e.to_string()),
        };
        packer.record(probe);
    }
    (pack_message_with_context(content, packer), probes)
}

fn section(rel: &str, truncated: bool, body: &str) -> String {
    format!(
        "## File: `{rel}`\n{}\n```\n{}\n```",
        if truncated { "_Truncated by context budget._" } else { "" },
        body
    )
}

#[test]
fn limits_are_the_documented_ones() {
    assert_eq!(MAX_CONTEXT_FILES, 12);
    assert_eq!(MAX_CONTEXT_BYTES_PER_FILE, 24 * 1024);
    assert_eq!(MAX_CONTEXT_BYTES_TOTAL, 96 * 1024);
}

#[test]
fn no_paths_gives_the_trimmed_task() {
    let (msg, probes) = pack("/p", "  fix the bug \n", &[], &HashMap::new());
    assert_eq!(msg, "fix the bug");
    assert_eq!(probes, 0);
}

#[test]
fn one_file_is_packed_before_the_task() {
    let mut fs = HashMap::new();
    fs.insert("/p/src/lib.rs".to_string(), Entry::File(b"fn main() {}".to_vec()));
    let (msg, _) = pack("/p", "explain", &["src/lib.rs"], &fs);
    let expected = format!(
        "{INTRO}{LIMITS}\n\n{}\n\nUser task:\nexplain",
        section("src/lib.rs", false, "fn main() {}")
    );
    assert_eq!(msg, expected);
}

#[test]
fn blank_paths_are_ignored_but_still_count_as_a_selection() {
    let (msg, probes) = pack("/p", "task", &["  ", ""], &HashMap::new());
    assert_eq!(probes, 0);
    assert_eq!(
        msg,
        format!("{INTRO}{LIMITS}\n\nNo selected context files could be packed.\n\nUser task:\ntask")
    );
}

#[test]
fn skipped_paths_say_why() {
    let mut fs = HashMap::new();
    fs.insert("/p/dir".to_string(), Entry::Dir);
    fs.insert("/p/locked.txt".to_string(), Entry::Broken("permission denied"));
    let (msg, _) = pack("/p", "t", &["/etc/passwd", "dir", "locked.txt", "missing.txt"], &fs);
    let expected = format!(
        "{INTRO}{LIMITS}\n\nSkipped `/etc/passwd`: outside project root.\n\nSkipped `dir`: not a readable file.\n\nSkipped `locked.txt`: permission denied.\n\nSkipped `missing.txt`: not a readable file.\n\nNo selected context files could be packed.\n\nUser task:\nt"
    );
    assert_eq!(msg, expected);
}

#[test]
fn a_large_file_is_truncated_to_the_per_file_budget() {
    let mut fs = HashMap::new();
    fs.insert("/p/big.txt".to_string(), Entry::File(vec![b'x'; 30_000]));
    let (msg, _) = pack("/p", "t", &["big.txt"], &fs);
    let body = "x".repeat(MAX_CONTEXT_BYTES_PER_FILE);
    assert_eq!(msg, format!("{INTRO}{LIMITS}\n\n{}\n\nUser task:\nt", section("big.txt", true, &body)));
}

#[test]
fn at_most_twelve_files_are_packed() {
    let mut fs = HashMap::new();
    let names: Vec<String> = (0..15).map(|i| format!("f{i}.txt")).collect();
    for n in &names {
        fs.insert(format!("/p/{n}"), Entry::File(b"ok".to_vec()));
    }
    let refs: Vec<&str> = names.iter().map(|s| s.as_str()).collect();
    let (msg, probes) = pack("/p", "t", &refs, &fs);
    assert_eq!(probes, 12);
    assert_eq!(msg.matches("## File:").count(), 12);
    assert!(msg.contains("f11.txt"));
    assert!(!msg.contains("f12.txt"));
}

#[test]
fn the_total_budget_stops_packing() {
    let mut fs = HashMap::new();
    let names: Vec<String> = (0..6).map(|i| format!("g{i}.txt")).collect();
    for n in &names {
        fs.insert(format!("/p/{n}"), Entry::File(vec![b'y'; 30_000]));
    }
    let refs: Vec<&str> = names.iter().map(|s| s.as_str()).collect();
    let (msg, probes) = pack("/p", "t", &refs, &fs);
    // Four files of 24 KiB each use up the 96 KiB.
    assert_eq!(probes, 4);
    assert_eq!(msg.matches("_Truncated by context budget._").count(), 4);
    assert!(!msg.contains("g4.txt"));
}

#[test]
fn the_last_file_gets_only_what_is_left_of_the_budget() {
    let mut packer = ContextPacker::new("/p".to_string(), (0..5).map(|i| format!("h{i}")).collect());
    let sizes = [24_000usize, 24_000, 24_000, 24_000, 10_000];
    let mut seen = Vec::new();
    let mut k = 0;
    while let Some(raw) = packer.next_path() {
        assert!(packer.locate(&format!("/p/{raw}")));
        packer.record(FileProbe::Read(vec![b'z'; sizes[k]]));
        seen.push(raw);
        k += 1;
    }
    assert_eq!(seen.len(), 5);
    let text = packer.finish();
    let last = text.split("\n\n").last().unwrap().to_string();
    let remaining = MAX_CONTEXT_BYTES_TOTAL - 4 * 24_000;
    assert_eq!(last, section("h4", true, &"z".repeat(remaining)));
}

#[test]
fn invalid_utf8_is_replaced() {
    let mut fs = HashMap::new();
    fs.insert("/p/bin".to_string(), Entry::File(vec![b'a', 0xff, b'b']));
    let (msg, _) = pack("/p", "t", &["bin"], &fs);
    assert!(msg.contains("```\na\u{fffd}b\n```"));
}

#[test]
fn a_file_cut_inside_a_character_gets_a_replacement_mark() {
    let mut bytes = vec![b'a'; MAX_CONTEXT_BYTES_PER_FILE - 1];
    bytes.extend_from_slice("é".as_bytes());
    let mut packer = ContextPacker::new("/p".to_string(), vec!["x".to_string()]);
    let raw = packer.next_path().unwrap();
    assert_eq!(raw, "x");
    assert!(packer.locate("/p/x"));
    packer.record(FileProbe::Read(bytes));
    let text = packer.finish();
    assert!(text.contains("_Truncated by context budget._"));
    assert!(text.contains("a\u{fffd}\n```"));
}

#[test]
fn locating_without_a_pending_path_changes_nothing() {
    let mut packer = ContextPacker::new("/p".to_string(), vec![]);
    assert!(!packer.locate("/p/a"));
    packer.record(FileProbe::NotAFile);
    assert!(packer.accepting());
    assert!(!packer.has_paths());
    assert_eq!(packer.finish(), format!("{LIMITS}\n\nNo selected context files could be packed."));
}

#[test]
fn blank_paths_change_no_pack_that_selects_a_file() {
    let mut fs = HashMap::new();
    fs.insert("/p/a.txt".to_string(), Entry::File(b"alpha".to_vec()));
    fs.insert("/p/b.txt".to_string(), Entry::File(b"beta".to_vec()));
    let (with_blanks, n1) = pack("/p", " task ", &["", "a.txt", "   ", "\t", "b.txt", " "], &fs);
    let (without, n2) = pack("/p", " task ", &["a.txt", "b.txt"], &fs);
    assert_eq!(with_blanks, without);
    assert_eq!(n1, n2);
    assert_eq!(n1, 2);
}

#[test]
fn only_blank_paths_still_make_a_pack() {
    let (all_blank, _) = pack("/p", "task", &["  "], &HashMap::new());
    let (none, _) = pack("/p", "task", &[], &HashMap::new());
    assert_ne!(all_blank, none);
    assert_eq!(none, "task");
}

#[test]
fn next_path_hands_out_paths_that_are_not_blank_in_order() {
    let mut packer = ContextPacker::new("/p".to_string(), vec![" ".to_string(), "x".to_string(), "".to_string(), "y".to_string()]);
    assert_eq!(packer.next_path().as_deref(), Some("x"));
    assert_eq!(packer.next_path().as_deref(), Some("y"));
    assert_eq!(packer.next_path(), None);
}

#[test]
fn the_budget_is_the_smaller_of_the_file_and_total_limits() {
    let mut packer = ContextPacker::new("/p".to_string(), vec!["a".to_string(); 5]);
    assert_eq!(packer.budget(), MAX_CONTEXT_BYTES_PER_FILE);
    for _ in 0..3 {
        assert!(packer.next_path().is_some());
        assert!(packer.locate("/p/a"));
        packer.record(FileProbe::Read(vec![b'q'; MAX_CONTEXT_BYTES_PER_FILE]));
    }
    assert_eq!(packer.budget(), MAX_CONTEXT_BYTES_PER_FILE);
    assert!(packer.next_path().is_some());
    assert!(packer.locate("/p/a"));
    packer.record(FileProbe::Read(vec![b'q'; MAX_CONTEXT_BYTES_PER_FILE - 10]));
    assert_eq!(packer.budget(), 10);
}

#[test]
fn reading_one_byte_past_the_budget_packs_the_same() {
    let big = vec![b'z'; MAX_CONTEXT_BYTES_PER_FILE + 500];
    let run = |bytes: Vec<u8>| {
        let mut packer = ContextPacker::new("/p".to_string(), vec!["f".to_string()]);
        packer.next_path();
        packer.locate("/p/f");
        packer.record(FileProbe::Read(bytes));
        pack_message_with_context("t", packer)
    };
    assert_eq!(run(big.clone()), run(big[..MAX_CONTEXT_BYTES_PER_FILE + 1].to_vec()));
}
