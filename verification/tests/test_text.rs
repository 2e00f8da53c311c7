use trust_sentinel::text::{
    chars_of, has_substring, lines_exec, str_contains, trim_exec, words_exec,
};

fn strs(v: Vec<Vec<char>>) -> Vec<String> {
    v.into_iter().map(|c| c.into_iter().collect()).collect()
}

#[test]
fn lines_follow_str_lines() {
    for s in ["", "a", "a\n", "a\r\nb", "a\n\nb\r\n", "\n", "x\ry\r\n", "a\r"] {
        let expect: Vec<String> = s.lines().map(|l| l.to_string()).collect();
        assert_eq!(strs(lines_exec(&chars_of(s))), expect, "input {:?}", s);
    }
}

#[test]
fn trim_and_words_follow_str() {
    for s in ["", "  ", " a b ", "\u{3000}x\u{a0}", "\ta\n\u{2028}b  c\r"] {
        let t: String = trim_exec(&chars_of(s)).into_iter().collect();
        assert_eq!(t, s.trim());
        let w: Vec<String> = s.split_whitespace().map(|x| x.to_string()).collect();
        assert_eq!(strs(words_exec(&chars_of(s))), w);
    }
}

#[test]
fn substring_search() {
    assert!(str_contains("GET /?token=abc HTTP/1.1", "token=abc"));
    assert!(!str_contains("token=ab", "token=abc"));
    assert!(str_contains("anything", ""));
    assert!(has_substring(&chars_of("aaab"), &chars_of("aab")));
}
