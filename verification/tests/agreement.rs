use lore::node::Node;
use lore::parse::{into_nodes, parse_line, parse_lines, LineContent};
use lore::text::char_is_whitespace;

#[test]
fn whitespace_is_what_std_calls_whitespace() {
    for code in 0..=0x10FFFFu32 {
        if let Some(c) = char::from_u32(code) {
            assert_eq!(char_is_whitespace(c), c.is_whitespace(), "U+{:04X}", code);
        }
    }
}

fn read_with_std(line: &str) -> String {
    let spaces = line.chars().take_while(|&c| c == ' ').count();
    let indent = spaces / 2;
    let t = line.trim_start();
    let mut chars = t.chars();
    let first = chars.next();
    let second = chars.next();
    if t == "#" {
        return format!("PlaceHolder({})", indent);
    }
    if first == Some('#') && second.is_some() && second != Some(' ') {
        return format!("Comment({:?}, {})", t[1..].trim(), indent);
    }
    if first == Some('+') && second.is_some() {
        let rest = t[1..].trim();
        return match rest.find('>') {
            Some(p) => {
                format!("Reference({:?}, {:?}, {})", rest[..p].trim(), rest[p + 1..].trim(), indent)
            }
            None => format!("Domain({:?}, {})", rest, indent),
        };
    }
    match t.find('=') {
        Some(p) => format!("Link({:?}, {:?}, {})", t[..p].trim(), t[p + 1..].trim(), indent),
        None => format!("Atom({:?}, {})", t, indent),
    }
}

fn all_texts(alphabet: &[char], max_len: usize) -> Vec<String> {
    let mut texts = vec![String::new()];
    let mut start = 0;
    for _ in 0..max_len {
        let end = texts.len();
        for i in start..end {
            for &c in alphabet {
                let mut longer = texts[i].clone();
                longer.push(c);
                texts.push(longer);
            }
        }
        start = end;
    }
    texts
}

#[test]
fn tokenizer_agrees_with_the_rules_read_with_std() {
    let alphabet = [' ', '\t', '#', '+', '=', '>', 'a', '\u{3000}', '域'];
    for text in all_texts(&alphabet, 5) {
        assert_eq!(format!("{:?}", parse_line(&text)), read_with_std(&text), "line {:?}", text);
    }
}

#[test]
fn lines_are_the_nonblank_pieces_between_line_feeds() {
    let alphabet = [' ', '\n', 'a', '+', '\r'];
    for text in all_texts(&alphabet, 6) {
        let expected: Vec<String> = text
            .split('\n')
            .filter(|line| !line.trim().is_empty())
            .map(read_with_std)
            .collect();
        let got: Vec<String> = parse_lines(&text).iter().map(|l| format!("{:?}", l)).collect();
        assert_eq!(got, expected, "text {:?}", text);
    }
}

#[derive(Debug, PartialEq)]
struct Plain {
    label: String,
    children: Vec<Plain>,
}

fn plain(node: &Node) -> Plain {
    Plain {
        label: format!("{:?}", node.node_type),
        children: node.rails.iter().map(plain).collect(),
    }
}

fn insert(roots: &mut Vec<Plain>, path: &[usize], node: Plain) {
    match path.split_first() {
        None => roots.push(node),
        Some((&first, rest)) => insert(&mut roots[first].children, rest, node),
    }
}

/// The builder as the stack of open domains describes it, with every node
/// put in place the moment its line arrives.
fn build_by_the_stack(lines: &[LineContent]) -> Vec<Plain> {
    let mut roots: Vec<Plain> = Vec::new();
    let mut stack: Vec<(usize, Vec<usize>)> = Vec::new();
    for line in lines {
        let indent = line.indent();
        while let Some((open_indent, _)) = stack.last() {
            if *open_indent >= indent {
                stack.pop();
            } else {
                break;
            }
        }
        let node = Plain { label: format!("{:?}", line.to_node().node_type), children: Vec::new() };
        let mut path = match stack.last() {
            Some((_, path)) => path.clone(),
            None => Vec::new(),
        };
        let position = {
            let mut level = &roots;
            for &step in &path {
                level = &level[step].children;
            }
            level.len()
        };
        insert(&mut roots, &path, node);
        if line.opens_domain() {
            path.push(position);
            stack.push((indent, path));
        }
    }
    roots
}

fn line_of_kind(kind: usize, indent: usize, name: &str) -> LineContent {
    match kind {
        0 => LineContent::Atom(name.to_string(), indent),
        1 => LineContent::Domain(name.to_string(), indent),
        2 => LineContent::Reference(name.to_string(), "v".to_string(), indent),
        _ => LineContent::Comment(name.to_string(), indent),
    }
}

#[test]
fn builder_agrees_with_the_stack_as_described() {
    let kinds = 4;
    let indents = 4;
    let choices = kinds * indents;
    for len in 0..=4usize {
        let total = (choices as u64).pow(len as u32);
        for code in 0..total {
            let mut rest = code;
            let mut lines = Vec::new();
            for i in 0..len {
                let choice = (rest % choices as u64) as usize;
                rest /= choices as u64;
                lines.push(line_of_kind(choice % kinds, choice / kinds, &format!("n{}", i)));
            }
            let got: Vec<Plain> = into_nodes(&lines).iter().map(plain).collect();
            assert_eq!(got, build_by_the_stack(&lines), "lines {:?}", lines);
        }
    }
}

#[test]
fn builder_agrees_with_the_stack_on_long_inputs() {
    let mut state: u64 = 0x2545F4914F6CDD1D;
    for round in 0..200 {
        let len = 5 + (round % 40);
        let mut lines = Vec::new();
        for i in 0..len {
            state ^= state << 13;
            state ^= state >> 7;
            state ^= state << 17;
            let kind = (state % 4) as usize;
            let indent = ((state >> 8) % 6) as usize;
            lines.push(line_of_kind(kind, indent, &format!("n{}", i)));
        }
        let got: Vec<Plain> = into_nodes(&lines).iter().map(plain).collect();
        assert_eq!(got, build_by_the_stack(&lines));
    }
}
