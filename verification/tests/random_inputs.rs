use djc_template_parser::{ParseError, TagParser, TagValue, ValueKind};

/// A small deterministic generator of pseudo-random numbers.
struct Lcg(u64);

impl Lcg {
    fn next(&mut self, bound: usize) -> usize {
        self.0 = self.0.wrapping_mul(6364136223846793005).wrapping_add(1442695040888963407);
        ((self.0 >> 33) as usize) % bound
    }
}

const PIECES: [&str; 40] = [
    " ", "\n", "\t", "a", "b1", "_", "x.y", "1", "-2", ".5", "3.e2", "'s'", "\"t\"", "'{{ v }}'",
    "_('i')", "_( \"j\" )", "[", "]", "{", "}", ",", ":", "|", "|f", "|g:", "=", "k=", "@c:d=", "*",
    "**", "...", "{# c #}", "{#", "#}", "'", "\"", "(", ")", "\u{e9}", "'\u{20ac}'",
];

fn check_value(input: &str, v: &TagValue, in_dict: bool, in_list: bool, is_arg: bool) {
    assert!(v.start_index <= v.token.start_index, "{:?}", input);
    assert!(v.token.start_index < v.token.end_index, "{:?}", input);
    assert!(v.token.end_index <= v.end_index && v.end_index <= input.len(), "{:?}", input);
    if v.kind != ValueKind::Translation {
        assert_eq!(&input[v.token.start_index..v.token.end_index], v.token.token, "{:?}", input);
    } else {
        assert!(v.token.token.starts_with("_(") && v.token.token.ends_with(')'), "{:?}", input);
    }
    match v.spread.as_deref() {
        None => {
            if v.filters.is_empty() && !is_arg {
                assert_eq!(v.start_index, v.token.start_index, "{:?}", input);
                assert_eq!(v.end_index, v.token.end_index, "{:?}", input);
                assert_eq!(v.line_col, v.token.line_col, "{:?}", input);
            }
        }
        Some("...") => assert!(!in_dict && !in_list && !is_arg, "{:?}", input),
        Some("*") => assert!(in_list, "{:?}", input),
        Some("**") => assert!(in_dict, "{:?}", input),
        Some(other) => panic!("marker {:?} in {:?}", other, input),
    }
    let mut last_end = v.token.end_index;
    for f in &v.filters {
        assert!(last_end <= f.start_index, "{:?}", input);
        assert_eq!(&input[f.start_index..f.start_index + 1], "|", "{:?}", input);
        assert_eq!(&input[f.token.start_index..f.token.end_index], f.token.token, "{:?}", input);
        if let Some(arg) = &f.arg {
            assert!(f.token.end_index <= arg.start_index, "{:?}", input);
            assert_eq!(&input[arg.start_index..arg.start_index + 1], ":", "{:?}", input);
            assert_eq!(arg.end_index, f.end_index, "{:?}", input);
            check_value(input, arg, false, false, true);
        } else {
            assert_eq!(f.end_index, f.token.end_index, "{:?}", input);
        }
        last_end = f.end_index;
    }
    assert_eq!(v.end_index, last_end, "{:?}", input);
    let is_dict = v.kind == ValueKind::Dict;
    let is_list = v.kind == ValueKind::List;
    assert!(is_dict || is_list || v.children.is_empty(), "{:?}", input);
    if is_dict {
        let marked = v.children.iter().filter(|c| c.spread.is_some()).count();
        assert_eq!((v.children.len() - marked) % 2, 0, "{:?}", input);
        let mut i = 0;
        while i < v.children.len() {
            if v.children[i].spread.is_none() {
                let key = &v.children[i];
                assert!(key.kind != ValueKind::List && key.kind != ValueKind::Dict, "{:?}", input);
                assert!(key.filters.iter().all(|f| f.arg.is_none()), "{:?}", input);
                i += 1;
            }
            i += 1;
        }
    }
    for child in &v.children {
        check_value(input, child, is_dict, is_list, false);
    }
}

fn check_input(input: &str) -> bool {
    match TagParser::parse_tag(input) {
        Ok(attrs) => {
            let mut last_end = 0;
            for attr in &attrs {
                assert!(last_end <= attr.start_index, "{:?}", input);
                assert!(attr.start_index < attr.end_index, "{:?}", input);
                assert_eq!(attr.end_index, attr.value.end_index, "{:?}", input);
                if let Some(key) = &attr.key {
                    assert_eq!(key.start_index, attr.start_index, "{:?}", input);
                    assert_eq!(&input[key.start_index..key.end_index], key.token, "{:?}", input);
                    assert_eq!(&input[key.end_index..key.end_index + 1], "=", "{:?}", input);
                    assert_eq!(attr.value.token.start_index, key.end_index + 1, "{:?}", input);
                    assert!(attr.value.spread.is_none(), "{:?}", input);
                } else {
                    assert_eq!(attr.value.start_index, attr.start_index, "{:?}", input);
                }
                check_value(input, &attr.value, false, false, false);
                last_end = attr.end_index;
            }
            true
        }
        Err(ParseError::Grammar(_)) | Err(ParseError::InvalidKey(_)) => false,
        Err(ParseError::TooDeep(_)) => panic!("{:?} does not nest deep", input),
    }
}

#[test]
fn random_inputs_parse_into_well_formed_trees_or_fail() {
    let mut rng = Lcg(0x5eed);
    let mut parsed = 0;
    for _ in 0..12000 {
        let pieces = 1 + rng.next(8);
        let mut input = String::new();
        for _ in 0..pieces {
            input.push_str(PIECES[rng.next(PIECES.len())]);
        }
        if check_input(&input) {
            parsed += 1;
        }
    }
    assert!(parsed > 1200, "{}", parsed);
}

#[test]
fn random_bytes_never_break_the_parser() {
    let mut rng = Lcg(0xb17e5);
    let alphabet: Vec<char> = " \n'\"_()[]{},:|=*.#ae1-+\u{e9}".chars().collect();
    for _ in 0..12000 {
        let len = rng.next(10);
        let input: String = (0..len).map(|_| alphabet[rng.next(alphabet.len())]).collect();
        check_input(&input);
    }
}
