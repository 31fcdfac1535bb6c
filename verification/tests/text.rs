use roteiro::names::{insert_name, NameMap};
use roteiro::text::{
    chars_of, decimal, decimal_wide, escape_html, find_from, has, head, is_among, join, left,
    lower, merge_into, precedes, right, same, split, starts, string_of, trim, trim_end,
    white,
};

const SAMPLES: [&str; 14] = [
    "",
    " ",
    "a",
    "A",
    "ab",
    "aab",
    "b",
    "é",
    "ae\u{301}",
    "\u{a0}x\u{2003}",
    "x \n",
    "日本",
    "a.b..c",
    "🦀",
];

fn owned(items: &[&str]) -> Vec<String> {
    items.iter().map(|s| (*s).to_owned()).collect()
}

#[test]
fn white_space_is_what_std_calls_so() {
    for n in 0..=0x10FFFF_u32 {
        if let Some(c) = char::from_u32(n) {
            assert_eq!(white(c), c.is_whitespace(), "{n:#x}");
        }
    }
}

#[test]
fn strings_compare_and_search_as_in_std() {
    for a in SAMPLES {
        assert_eq!(chars_of(a), a.chars().collect::<Vec<_>>());
        let v = chars_of(a);
        assert_eq!(string_of(&v, 0, v.len()), a);
        assert_eq!(trim(a), a.trim());
        assert_eq!(trim_end(a), a.trim_end());
        assert_eq!(lower(a), a.to_ascii_lowercase());
        for b in SAMPLES {
            assert_eq!(same(a, b), a == b);
            assert_eq!(precedes(a, b), a < b, "{a:?} {b:?}");
            assert_eq!(has(a, b), a.contains(b), "{a:?} {b:?}");
            assert_eq!(starts(a, b), a.starts_with(b), "{a:?} {b:?}");
            assert_eq!(
                head(a, b).as_deref(),
                a.split_once(b).map(|(h, _)| h),
                "{a:?} {b:?}"
            );
        }
    }
    assert_eq!(
        find_from(&chars_of("abcabc"), &chars_of("bc"), 2),
        Some(4)
    );
    assert_eq!(find_from(&chars_of("abc"), &chars_of("bc"), 2), None);
    assert!(is_among(&owned(&["a", "b"]), "b"));
    assert!(!is_among(&owned(&["a", "b"]), "c"));
}

#[test]
fn strings_are_parted_and_joined_as_in_std() {
    for s in SAMPLES {
        assert_eq!(split(s, '.'), s.split('.').collect::<Vec<_>>());
        assert_eq!(join(&split(s, '.'), "."), s);
    }
    assert_eq!(join(&owned(&[]), ", "), "");
    assert_eq!(join(&owned(&["a", "b", "c"]), ", "), "a, b, c");
}

#[test]
fn numbers_are_written_as_in_std() {
    for n in [0, 1, 9, 10, 99, 100, 12345, usize::MAX] {
        assert_eq!(decimal(n), n.to_string());
    }
    assert_eq!(decimal_wide(u128::MAX), u128::MAX.to_string());
}

#[test]
fn columns_are_filled_as_in_std() {
    for s in SAMPLES {
        for w in [0, 1, 2, 5] {
            assert_eq!(right(s, w), format!("{s:>w$}"));
            assert_eq!(left(s, w), format!("{s:<w$}"));
        }
    }
}

#[test]
fn merging_lists_keeps_the_first_of_each() {
    let mut base = owned(&["a", "b", "a"]);
    merge_into(&mut base, &owned(&["b", "c", "c", "d"]));
    assert_eq!(base, ["a", "b", "a", "c", "d"]);
}

#[test]
fn markup_is_escaped() {
    assert_eq!(
        escape_html("<a href=\"x\">&'é</a>"),
        "&lt;a href=&quot;x&quot;&gt;&amp;&#39;é&lt;/a&gt;"
    );
    assert_eq!(escape_html(""), "");
}

#[test]
fn names_are_kept_in_order_and_once() {
    let mut v: Vec<String> = vec![];
    for (s, new) in [
        ("m", true),
        ("a", true),
        ("z", true),
        ("m", false),
        ("b", true),
        ("a", false),
    ] {
        assert_eq!(insert_name(&mut v, s), new, "{s}");
    }
    assert_eq!(v, ["a", "b", "m", "z"]);
}

#[test]
fn a_map_holds_the_last_value_of_each_name_in_order() {
    let mut m: NameMap<usize> = NameMap::new();
    assert!(m.is_empty());
    let mut std_map = std::collections::BTreeMap::new();
    let names = ["m", "a", "z", "m", "", "é", "aa", "Z", "a", "日"];
    for (i, n) in names.iter().enumerate() {
        m.insert(n, i);
        std_map.insert((*n).to_owned(), i);
    }
    assert_eq!(m.len(), std_map.len());
    for (i, (k, v)) in std_map.iter().enumerate() {
        assert_eq!(m.name_at(i), k);
        assert_eq!(m.val_at(i), v);
        assert_eq!(m.get(k), Some(v));
    }
    assert_eq!(m.get("b"), None);
}
