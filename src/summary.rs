use vstd::prelude::*;

verus! {

pub open spec fn digit_char(d: nat) -> char {
    if d == 0 {
        '0'
    } else if d == 1 {
        '1'
    } else if d == 2 {
        '2'
    } else if d == 3 {
        '3'
    } else if d == 4 {
        '4'
    } else if d == 5 {
        '5'
    } else if d == 6 {
        '6'
    } else if d == 7 {
        '7'
    } else if d == 8 {
        '8'
    } else {
        '9'
    }
}

/// The decimal digits of `n`, without leading zeros.
pub open spec fn decimal(n: nat) -> Seq<char>
    decreases n,
{
    if n < 10 {
        seq![digit_char(n)]
    } else {
        decimal(n / 10).push(digit_char(n % 10))
    }
}

pub open spec fn or_empty(s: Option<Seq<char>>) -> Seq<char> {
    match s {
        Some(t) => t,
        None => Seq::empty(),
    }
}

/// `source[:line] (name)`, each part left out when absent.
pub open spec fn summary_text(
    source: Option<Seq<char>>,
    line: Option<u32>,
    name: Option<Seq<char>>,
) -> Seq<char> {
    let line_part = match line {
        Some(l) => seq![':'] + decimal(l as nat),
        None => Seq::empty(),
    };
    let name_part = match name {
        Some(n) => seq![' ', '('] + n + seq![')'],
        None => Seq::empty(),
    };
    or_empty(source) + line_part + name_part
}

pub open spec fn str_view(s: Option<&str>) -> Option<Seq<char>> {
    match s {
        Some(t) => Some(t@),
        None => None,
    }
}

fn digit_str(d: u32) -> (r: &'static str)
    requires
        d < 10,
    ensures
        r@ == seq![digit_char(d as nat)],
{
    proof {
        reveal_strlit("0");
        reveal_strlit("1");
        reveal_strlit("2");
        reveal_strlit("3");
        reveal_strlit("4");
        reveal_strlit("5");
        reveal_strlit("6");
        reveal_strlit("7");
        reveal_strlit("8");
        reveal_strlit("9");
    }
    match d {
        0 => "0",
        1 => "1",
        2 => "2",
        3 => "3",
        4 => "4",
        5 => "5",
        6 => "6",
        7 => "7",
        8 => "8",
        _ => "9",
    }
}

fn append_decimal(out: &mut String, n: u32)
    ensures
        final(out)@ == old(out)@ + decimal(n as nat),
    decreases n,
{
    if n >= 10 {
        append_decimal(out, n / 10);
    }
    out.append(digit_str(n % 10));
    proof {
        if n >= 10 {
            assert(decimal(n as nat) == decimal((n / 10) as nat).push(digit_char((n % 10) as nat)));
        }
    }
}

/// Renders the display line of a pending snapshot from its source path,
/// line and snapshot name.
pub fn render_summary(source: Option<&str>, line: Option<u32>, name: Option<&str>) -> (r: String)
    ensures
        r@ == summary_text(str_view(source), line, str_view(name)),
{
    let mut rv = String::new();
    if let Some(source) = source {
        rv.append(source);
    }
    let ghost after_source = rv@;
    if let Some(line) = line {
        proof {
            reveal_strlit(":");
        }
        rv.append(":");
        append_decimal(&mut rv, line);
    }
    let ghost after_line = rv@;
    if let Some(name) = name {
        proof {
            reveal_strlit(" (");
            reveal_strlit(")");
        }
        rv.append(" (");
        rv.append(name);
        rv.append(")");
    }
    proof {
        let line_part = match line {
            Some(l) => seq![':'] + decimal(l as nat),
            None => Seq::<char>::empty(),
        };
        let name_part = match name {
            Some(n) => seq![' ', '('] + n@ + seq![')'],
            None => Seq::<char>::empty(),
        };
        assert(after_source =~= or_empty(str_view(source)));
        assert(after_line =~= after_source + line_part);
        assert(rv@ =~= after_line + name_part);
    }
    rv
}

} // verus!
