//! Terminal color codes named in text, such as `red,bold` or `0x55`.
use vstd::prelude::*;
use crate::hex::{hex_byte, parse_hex_byte};
use crate::text::{chars_of, decimal, push_all, push_char, push_decimal, same_chars};

verus! {

/// The code of a named color or attribute.
pub open spec fn named_code(k: Seq<char>) -> Option<Seq<char>> {
    if k == "reset"@ {
        Some("0"@)
    } else if k == "bold"@ {
        Some("1"@)
    } else if k == "dim"@ {
        Some("2"@)
    } else if k == "underlined"@ {
        Some("4"@)
    } else if k == "blink"@ {
        Some("5"@)
    } else if k == "reverse"@ {
        Some("7"@)
    } else if k == "hidden"@ {
        Some("8"@)
    } else if k == "black"@ {
        Some("30"@)
    } else if k == "red"@ {
        Some("31"@)
    } else if k == "green"@ {
        Some("32"@)
    } else if k == "yellow"@ {
        Some("33"@)
    } else if k == "blue"@ {
        Some("34"@)
    } else if k == "magenta"@ {
        Some("35"@)
    } else if k == "cyan"@ {
        Some("36"@)
    } else if k == "light_gray"@ {
        Some("37"@)
    } else if k == "default"@ {
        Some("39"@)
    } else if k == "dark_gray"@ {
        Some("90"@)
    } else if k == "light_red"@ {
        Some("91"@)
    } else if k == "light_green"@ {
        Some("92"@)
    } else if k == "light_yellow"@ {
        Some("93"@)
    } else if k == "light_blue"@ {
        Some("94"@)
    } else if k == "light_magenta"@ {
        Some("95"@)
    } else if k == "light_cyan"@ {
        Some("96"@)
    } else if k == "white"@ {
        Some("97"@)
    } else {
        None
    }
}

/// The code of one item of a color list: a name, or `0x` and a byte in hexadecimal for a
/// color of the 256-color palette.
pub open spec fn color_code(k: Seq<char>) -> Option<Seq<char>> {
    if k.len() > 2 && k[0] == '0' && k[1] == 'x' {
        match hex_byte(k.subrange(2, k.len() as int)) {
            Ok(b) => Some(seq!['3', '8', ';', '5', ';'] + decimal(b)),
            Err(_) => None,
        }
    } else {
        named_code(k)
    }
}

/// The scan of a text for its items between commas: those finished, and the one under way.
pub open spec fn comma_scan(s: Seq<char>) -> (Seq<Seq<char>>, Seq<char>)
    decreases s.len(),
{
    if s.len() == 0 {
        (Seq::empty(), Seq::empty())
    } else {
        let (done, cur) = comma_scan(s.drop_last());
        if s.last() == ',' {
            (done.push(cur), Seq::empty())
        } else {
            (done, cur.push(s.last()))
        }
    }
}

/// The items of a text between commas, empty ones included.
pub open spec fn comma_items(s: Seq<char>) -> Seq<Seq<char>> {
    comma_scan(s).0.push(comma_scan(s).1)
}

/// The codes of a list of items, separated by `;`, or `None` when an item names nothing.
pub open spec fn codes(items: Seq<Seq<char>>) -> Option<Seq<char>>
    decreases items.len(),
{
    if items.len() == 0 {
        Some(Seq::empty())
    } else {
        match (codes(items.drop_last()), color_code(items.last())) {
            (Some(a), Some(c)) => Some(if items.len() == 1 { c } else { a + seq![';'] + c }),
            _ => None,
        }
    }
}

/// The escape sequence that a comma-separated color list stands for.
pub open spec fn render(s: Seq<char>) -> Option<Seq<char>> {
    match codes(comma_items(s)) {
        Some(c) => Some(seq!['\x1b', '['] + c + seq!['m']),
        None => None,
    }
}

fn named_code_of(k: &Vec<char>) -> (r: Option<Vec<char>>)
    ensures
        r matches Some(c) ==> named_code(k@) == Some(c@),
        r is None ==> named_code(k@) is None,
{
    if same_chars(k, &chars_of("reset")) {
        return Some(chars_of("0"));
    }
    if same_chars(k, &chars_of("bold")) {
        return Some(chars_of("1"));
    }
    if same_chars(k, &chars_of("dim")) {
        return Some(chars_of("2"));
    }
    if same_chars(k, &chars_of("underlined")) {
        return Some(chars_of("4"));
    }
    if same_chars(k, &chars_of("blink")) {
        return Some(chars_of("5"));
    }
    if same_chars(k, &chars_of("reverse")) {
        return Some(chars_of("7"));
    }
    if same_chars(k, &chars_of("hidden")) {
        return Some(chars_of("8"));
    }
    if same_chars(k, &chars_of("black")) {
        return Some(chars_of("30"));
    }
    if same_chars(k, &chars_of("red")) {
        return Some(chars_of("31"));
    }
    if same_chars(k, &chars_of("green")) {
        return Some(chars_of("32"));
    }
    if same_chars(k, &chars_of("yellow")) {
        return Some(chars_of("33"));
    }
    if same_chars(k, &chars_of("blue")) {
        return Some(chars_of("34"));
    }
    if same_chars(k, &chars_of("magenta")) {
        return Some(chars_of("35"));
    }
    if same_chars(k, &chars_of("cyan")) {
        return Some(chars_of("36"));
    }
    if same_chars(k, &chars_of("light_gray")) {
        return Some(chars_of("37"));
    }
    if same_chars(k, &chars_of("default")) {
        return Some(chars_of("39"));
    }
    if same_chars(k, &chars_of("dark_gray")) {
        return Some(chars_of("90"));
    }
    if same_chars(k, &chars_of("light_red")) {
        return Some(chars_of("91"));
    }
    if same_chars(k, &chars_of("light_green")) {
        return Some(chars_of("92"));
    }
    if same_chars(k, &chars_of("light_yellow")) {
        return Some(chars_of("93"));
    }
    if same_chars(k, &chars_of("light_blue")) {
        return Some(chars_of("94"));
    }
    if same_chars(k, &chars_of("light_magenta")) {
        return Some(chars_of("95"));
    }
    if same_chars(k, &chars_of("light_cyan")) {
        return Some(chars_of("96"));
    }
    if same_chars(k, &chars_of("white")) {
        return Some(chars_of("97"));
    }
    None
}

fn color_code_of(k: &Vec<char>) -> (r: Option<Vec<char>>)
    ensures
        r matches Some(c) ==> color_code(k@) == Some(c@),
        r is None ==> color_code(k@) is None,
{
    if k.len() > 2 && k[0] == '0' && k[1] == 'x' {
        let mut digits: Vec<char> = Vec::new();
        let mut i: usize = 2;
        while i < k.len()
            invariant
                2 <= i <= k.len(),
                digits@ == k@.subrange(2, i as int),
            decreases k.len() - i,
        {
            digits.push(k[i]);
            assert(digits@ =~= k@.subrange(2, i + 1));
            i += 1;
        }
        match parse_hex_byte(&digits) {
            Ok(b) => {
                let mut out = String::new();
                push_decimal(&mut out, b as u64);
                let mut code: Vec<char> = vec!['3', '8', ';', '5', ';'];
                assert(code@ =~= seq!['3', '8', ';', '5', ';']);
                let d = chars_of(out.as_str());
                let mut j: usize = 0;
                let ghost start = code@;
                while j < d.len()
                    invariant
                        j <= d.len(),
                        code@ == start + d@.subrange(0, j as int),
                    decreases d.len() - j,
                {
                    code.push(d[j]);
                    assert(code@ =~= start + d@.subrange(0, j + 1));
                    j += 1;
                }
                assert(d@.subrange(0, d@.len() as int) =~= d@);
                Some(code)
            },
            Err(_) => None,
        }
    } else {
        named_code_of(k)
    }
}

/// The escape sequence that a comma-separated list of color names and attributes stands
/// for, such as `0x55,bold`; `None` when an item names nothing.
pub fn render_color(s: &Vec<char>) -> (r: Option<String>)
    ensures
        r matches Some(t) ==> render(s@) == Some(t@),
        r is None ==> render(s@) is None,
{
    let mut acc: Vec<char> = Vec::new();
    let mut cur: Vec<char> = Vec::new();
    let mut count: usize = 0;
    let mut ok = true;
    let mut i: usize = 0;
    while i < s.len()
        invariant
            i <= s.len(),
            count <= i,
            count == comma_scan(s@.subrange(0, i as int)).0.len(),
            cur@ == comma_scan(s@.subrange(0, i as int)).1,
            ok ==> codes(comma_scan(s@.subrange(0, i as int)).0) == Some(acc@),
            !ok ==> codes(comma_scan(s@.subrange(0, i as int)).0) is None,
        decreases s.len() - i,
    {
        let ghost pre = s@.subrange(0, i as int);
        assert(s@.subrange(0, i + 1).drop_last() =~= pre);
        if s[i] == ',' {
            let ghost done = comma_scan(pre).0;
            assert(done.push(cur@).drop_last() =~= done);
            match color_code_of(&cur) {
                Some(c) if ok => {
                    if count > 0 {
                        acc.push(';');
                    }
                    let ghost a = acc@;
                    let mut j: usize = 0;
                    while j < c.len()
                        invariant
                            j <= c.len(),
                            acc@ == a + c@.subrange(0, j as int),
                        decreases c.len() - j,
                    {
                        acc.push(c[j]);
                        assert(acc@ =~= a + c@.subrange(0, j + 1));
                        j += 1;
                    }
                    assert(c@.subrange(0, c@.len() as int) =~= c@);
                },
                _ => {
                    ok = false;
                },
            }
            cur = Vec::new();
            count = count + 1;
        } else {
            cur.push(s[i]);
        }
        i += 1;
    }
    assert(s@.subrange(0, s@.len() as int) =~= s@);
    let ghost done = comma_scan(s@).0;
    assert(done.push(cur@).drop_last() =~= done);
    match color_code_of(&cur) {
        Some(c) if ok => {
            let mut out = String::new();
            push_char(&mut out, '\x1b');
            push_char(&mut out, '[');
            if count > 0 {
                acc.push(';');
            }
            push_all(&mut out, &acc);
            push_all(&mut out, &c);
            push_char(&mut out, 'm');
            Some(out)
        },
        _ => None,
    }
}

} // verus!
