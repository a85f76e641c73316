use js_cgi::tags::{extract_server_scripts, replace_scripts};

/// The first server script at or after character `from`, looked for place by place.
fn search(t: &[char], from: usize) -> Option<(usize, usize, usize, usize)> {
    let at = |i: usize, s: &str| {
        let w: Vec<char> = s.chars().collect();
        i + w.len() <= t.len() && t[i..i + w.len()] == w[..]
    };
    for p in from..t.len() {
        if !at(p, "<script") {
            continue;
        }
        let mut w = p + 7;
        while w < t.len() && t[w].is_whitespace() {
            w += 1;
        }
        if w == p + 7 || !at(w, "server") {
            continue;
        }
        let body = match (w + 6..t.len()).find(|i| t[*i] == '>') {
            Some(i) => i + 1,
            None => continue,
        };
        if let Some(close) = (body..t.len()).find(|i| at(*i, "</script>")) {
            return Some((p, body, close, close + 9));
        }
    }
    None
}

fn agrees(page: &str) {
    let t: Vec<char> = page.chars().collect();
    let bytes = |i: usize| t[..i].iter().map(|c| c.len_utf8()).sum::<usize>();
    let mut from = 0;
    for block in extract_server_scripts(page) {
        let (start, body, close, end) = search(&t, from).expect(page);
        assert_eq!(block.start_pos, bytes(start), "{:?}", page);
        assert_eq!(block.end_pos, bytes(end), "{:?}", page);
        assert_eq!(block.content, t[body..close].iter().collect::<String>(), "{:?}", page);
        assert!(page.is_char_boundary(block.start_pos) && page.is_char_boundary(block.end_pos));
        from = end;
    }
    assert_eq!(search(&t, from), None, "{:?}", page);
}

#[test]
fn scripts_are_found_where_they_stand() {
    let tokens = [
        "<script", " ", "\u{2003}", "server", ">", "</script>", "é", "<script server>", "x\n",
    ];
    let mut pages = vec![String::new()];
    let mut all = pages.clone();
    for _ in 0..4 {
        let mut longer = Vec::new();
        for page in &pages {
            for token in tokens {
                longer.push(format!("{}{}", page, token));
            }
        }
        all.extend(longer.iter().cloned());
        pages = longer;
    }
    for page in &all {
        agrees(page);
    }
}

#[test]
fn one_script() {
    let page = "<p>é</p><script server>write(1)</script>!";
    let blocks = extract_server_scripts(page);
    assert_eq!(blocks.len(), 1);
    assert_eq!(blocks[0].content, "write(1)");
    assert_eq!(blocks[0].start_pos, 9);
    assert_eq!(blocks[0].end_pos, page.len() - 1);
}

#[test]
fn attributes_and_lines() {
    let page = "<script\n\tserver async data-x=\"1\">\na\nb\n</script>";
    let blocks = extract_server_scripts(page);
    assert_eq!(blocks.len(), 1);
    assert_eq!(blocks[0].content, "\na\nb\n");
}

#[test]
fn what_is_no_server_script() {
    assert_eq!(extract_server_scripts("<p>nothing</p>").len(), 0);
    assert_eq!(extract_server_scripts("<script>a</script>").len(), 0);
    assert_eq!(extract_server_scripts("<script src=server>a</script>").len(), 0);
    assert_eq!(extract_server_scripts("<scriptserver>a</script>").len(), 0);
    assert_eq!(extract_server_scripts("<SCRIPT SERVER>a</SCRIPT>").len(), 0);
    assert_eq!(extract_server_scripts("<script server>a").len(), 0);
    assert_eq!(extract_server_scripts("<script server").len(), 0);
}

#[test]
fn the_nearest_closing_tag_ends_a_script() {
    let page = "<script server>a</script></script><script server>b</script>";
    let blocks = extract_server_scripts(page);
    assert_eq!(blocks.len(), 2);
    assert_eq!(blocks[0].content, "a");
    assert_eq!(blocks[1].content, "b");
    let nested = "<script server><script server>a</script>";
    let blocks = extract_server_scripts(nested);
    assert_eq!(blocks.len(), 1);
    assert_eq!(blocks[0].content, "<script server>a");
    assert!(blocks[0].start_pos < blocks[0].end_pos);
}

#[test]
fn scripts_are_replaced_in_their_places() {
    let page = "é<script server>a</script>ü<script server >b</script>\n";
    let blocks = extract_server_scripts(page);
    let longer = vec!["ß".repeat(50), "".to_string()];
    assert_eq!(replace_scripts(page, &blocks, &longer), format!("é{}ü\n", "ß".repeat(50)));
    let other = vec!["x".to_string(), "".to_string()];
    assert_eq!(replace_scripts(page, &blocks, &other), "éxü\n");
    let none = extract_server_scripts("plain");
    assert_eq!(replace_scripts("plain", &none, &Vec::new()), "plain");
}

#[test]
fn putting_the_sources_back_gives_the_page() {
    let page = "<script server>a</script><script server>é</script>-<script server></script>";
    let blocks = extract_server_scripts(page);
    let sources: Vec<String> =
        blocks.iter().map(|b| page[b.start_pos..b.end_pos].to_string()).collect();
    assert_eq!(sources.len(), 3);
    assert_eq!(replace_scripts(page, &blocks, &sources), page);
}
