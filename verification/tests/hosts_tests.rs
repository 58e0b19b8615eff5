use focusd::hosts::{hosts_active, hosts_add, hosts_remove, release_block, split_lines};

fn lines(texts: &[&str]) -> Vec<String> {
    texts.iter().map(|t| t.to_string()).collect()
}

#[test]
fn adds_block_after_existing_lines() {
    let hosts = lines(&["127.0.0.1\tlocalhost", "::1\tlocalhost"]);
    let blocked = lines(&["youtube.com", "reddit.com"]);
    assert_eq!(
        hosts_add(&hosts, &blocked),
        "127.0.0.1\tlocalhost\n::1\tlocalhost\n# --- focusd start ---\n127.0.0.1\tyoutube.com\n127.0.0.1\treddit.com\n# --- focusd end ---"
    );
}

#[test]
fn adds_block_to_empty_file() {
    assert_eq!(
        hosts_add(&lines(&[]), &lines(&[])),
        "# --- focusd start ---\n# --- focusd end ---"
    );
}

#[test]
fn removes_block() {
    let hosts = lines(&[
        "127.0.0.1\tlocalhost",
        "# --- focusd start ---",
        "127.0.0.1\tyoutube.com",
        "# --- focusd end ---",
        "10.0.0.1\tserver",
    ]);
    assert_eq!(hosts_remove(&hosts), "127.0.0.1\tlocalhost\n10.0.0.1\tserver");
}

#[test]
fn removes_every_block_and_an_unclosed_one_to_the_end() {
    let hosts = lines(&[
        "a",
        "# --- focusd start ---",
        "x",
        "# --- focusd end ---",
        "b",
        "# --- focusd start ---",
        "y",
        "z",
    ]);
    assert_eq!(hosts_remove(&hosts), "a\nb");
}

#[test]
fn remove_after_add_restores_lines() {
    let hosts = lines(&["127.0.0.1\tlocalhost", "", "# a comment"]);
    let blocked = lines(&["news.ycombinator.com", "xkcd.com"]);
    let added = hosts_add(&hosts, &blocked);
    let reread: Vec<String> = added.split('\n').map(|l| l.to_string()).collect();
    assert!(hosts_active(&reread));
    assert_eq!(hosts_remove(&reread), hosts.join("\n"));
}

#[test]
fn activity_follows_start_marker() {
    assert!(!hosts_active(&lines(&["127.0.0.1\tlocalhost"])));
    assert!(!hosts_active(&lines(&["# --- focusd end ---"])));
    assert!(hosts_active(&lines(&["x", "# --- focusd start ---"])));
    assert!(!hosts_active(&lines(&["# --- focusd start --- "])));
}

#[test]
fn release_leaves_blockless_file_alone() {
    assert_eq!(release_block(&lines(&["a", "b"])), None);
    assert_eq!(
        release_block(&lines(&["a", "# --- focusd start ---", "c", "# --- focusd end ---"])),
        Some("a".to_string())
    );
}

#[test]
fn remove_twice_equals_remove_once() {
    let hosts = lines(&["a", "# --- focusd end ---", "b", "# --- focusd start ---", "c"]);
    let once = hosts_remove(&hosts);
    let again: Vec<String> = once.split('\n').map(|l| l.to_string()).collect();
    assert_eq!(hosts_remove(&again), once);
}

#[test]
fn splits_text_into_lines() {
    assert_eq!(split_lines("a\nb"), lines(&["a", "b"]));
    assert_eq!(split_lines("a\r\nb\n"), lines(&["a", "b"]));
    assert_eq!(split_lines(""), lines(&[]));
    assert_eq!(split_lines("\n"), lines(&[""]));
    assert_eq!(split_lines("a\n\nb"), lines(&["a", "", "b"]));
    assert_eq!(split_lines("a\r"), lines(&["a\r"]));
    assert_eq!(split_lines("\r\r\n"), lines(&["\r"]));
    assert_eq!(split_lines("x\ry\n"), lines(&["x\ry"]));
}

#[test]
fn written_hosts_file_reads_back() {
    let hosts = lines(&["127.0.0.1\tlocalhost", "", "::1\tlocalhost"]);
    let blocked = lines(&["youtube.com", "xkcd.com"]);
    let written = hosts_add(&hosts, &blocked);
    let reread = split_lines(&written);
    assert!(hosts_active(&reread));
    let removed = hosts_remove(&reread);
    assert_eq!(removed, hosts.join("\n"));
    assert!(!hosts_active(&split_lines(&removed)));
}
