//! Symbols by their names.
//!
//! The table holds the symbols that are needed in notes: Greek letters, signs of
//! mathematics and logic, arrows, and a few pictures.

use vstd::arithmetic::power2::{lemma2_to64, lemma2_to64_rest};
use vstd::prelude::*;
use vstd::utf8::encode_utf8;

use super::provider::{at_most, ItemView, PaletteItem};
use super::score::{clamped, near};
use crate::cuts::{law_searches_are_true, law_searches_find_the_first};
use crate::stdtext::{lowercase, to_lowercase};
use crate::text;
use crate::text::{find, trim};

verus! {

/// The name of the provider.
pub const UNICODE_PROVIDER: &'static str = "unicode";

/// How many symbols are shown at most.
pub const MAX_SYMBOLS: usize = 12;

/// A symbol, its name, and words that it is also found by.
#[derive(Debug, Clone, Copy, PartialEq, Eq)]
pub struct Glyph {
    pub symbol: char,
    pub name: &'static str,
    pub keywords: &'static str,
}

/// What a [`Glyph`] holds.
pub struct GlyphView {
    pub symbol: char,
    pub name: Seq<char>,
    pub keywords: Seq<char>,
}

/// What a glyph holds.
pub open spec fn glyph_view(g: Glyph) -> GlyphView {
    glyph(g.symbol, g.name@, g.keywords@)
}

pub open spec fn glyph(symbol: char, name: Seq<char>, keywords: Seq<char>) -> GlyphView {
    GlyphView { symbol, name, keywords }
}

/// The table of the symbols.
pub open spec fn table() -> Seq<GlyphView> {
    seq![
        glyph('α', "alpha"@, "greek"@),
        glyph('β', "beta"@, "greek"@),
        glyph('γ', "gamma"@, "greek"@),
        glyph('δ', "delta"@, "greek"@),
        glyph('ε', "epsilon"@, "greek"@),
        glyph('ζ', "zeta"@, "greek"@),
        glyph('η', "eta"@, "greek"@),
        glyph('θ', "theta"@, "greek"@),
        glyph('ι', "iota"@, "greek"@),
        glyph('κ', "kappa"@, "greek"@),
        glyph('λ', "lambda"@, "greek"@),
        glyph('μ', "mu"@, "greek micro"@),
        glyph('ν', "nu"@, "greek"@),
        glyph('ξ', "xi"@, "greek"@),
        glyph('π', "pi"@, "greek"@),
        glyph('ρ', "rho"@, "greek"@),
        glyph('σ', "sigma"@, "greek"@),
        glyph('τ', "tau"@, "greek"@),
        glyph('φ', "phi"@, "greek"@),
        glyph('χ', "chi"@, "greek"@),
        glyph('ψ', "psi"@, "greek"@),
        glyph('ω', "omega"@, "greek"@),
        glyph('Γ', "Gamma"@, "greek upper"@),
        glyph('Δ', "Delta"@, "greek upper change"@),
        glyph('Θ', "Theta"@, "greek upper"@),
        glyph('Λ', "Lambda"@, "greek upper"@),
        glyph('Π', "Pi"@, "greek upper product"@),
        glyph('Σ', "Sigma"@, "greek upper sum"@),
        glyph('Φ', "Phi"@, "greek upper"@),
        glyph('Ψ', "Psi"@, "greek upper"@),
        glyph('Ω', "Omega"@, "greek upper ohm"@),
        glyph('∑', "summation"@, "sum sigma"@),
        glyph('∏', "product"@, "prod pi"@),
        glyph('∫', "integral"@, "calculus"@),
        glyph('∂', "partial derivative"@, "del"@),
        glyph('∇', "nabla"@, "gradient del"@),
        glyph('√', "square root"@, "radical sqrt"@),
        glyph('∞', "infinity"@, "inf"@),
        glyph('≈', "approximately equal"@, "approx"@),
        glyph('≠', "not equal"@, "neq"@),
        glyph('≤', "less than or equal"@, "leq"@),
        glyph('≥', "greater than or equal"@, "geq"@),
        glyph('±', "plus minus"@, "pm"@),
        glyph('×', "multiplication"@, "times cross"@),
        glyph('÷', "division"@, "divide"@),
        glyph('·', "middle dot"@, "cdot dot product"@),
        glyph('∝', "proportional to"@, "prop"@),
        glyph('∈', "element of"@, "in member"@),
        glyph('∉', "not element of"@, "notin"@),
        glyph('⊂', "subset of"@, "subset"@),
        glyph('⊆', "subset or equal"@, "subseteq"@),
        glyph('∪', "union"@, "set"@),
        glyph('∩', "intersection"@, "set"@),
        glyph('∅', "empty set"@, "emptyset null"@),
        glyph('∀', "for all"@, "forall"@),
        glyph('∃', "there exists"@, "exists"@),
        glyph('¬', "logical not"@, "negation"@),
        glyph('∧', "logical and"@, "wedge"@),
        glyph('∨', "logical or"@, "vee"@),
        glyph('⊕', "direct sum"@, "xor oplus"@),
        glyph('⊗', "tensor product"@, "otimes"@),
        glyph('→', "rightwards arrow"@, "arrow to implies"@),
        glyph('←', "leftwards arrow"@, "arrow"@),
        glyph('↔', "left right arrow"@, "iff"@),
        glyph('⇒', "rightwards double arrow"@, "implies"@),
        glyph('⇔', "left right double arrow"@, "iff equiv"@),
        glyph('≡', "identical to"@, "equiv"@),
        glyph('∴', "therefore"@, "qed"@),
        glyph('∵', "because"@, "since"@),
        glyph('ℝ', "real numbers"@, "reals"@),
        glyph('ℕ', "natural numbers"@, "naturals"@),
        glyph('ℤ', "integers"@, "ints"@),
        glyph('ℚ', "rationals"@, "rationals"@),
        glyph('ℂ', "complex numbers"@, "complex"@),
        glyph('°', "degree"@, "degrees"@),
        glyph('′', "prime"@, "minutes feet"@),
        glyph('″', "double prime"@, "seconds inches"@),
        glyph('ℓ', "script l"@, "liter"@),
        glyph('✓', "check mark"@, "tick done yes"@),
        glyph('✗', "ballot x"@, "cross no fail"@),
        glyph('★', "star filled"@, "favorite"@),
        glyph('☆', "star outline"@, "favorite"@),
        glyph('⚠', "warning sign"@, "caution"@),
        glyph('→', "arrow"@, "next"@),
        glyph('🔥', "fire"@, "hot lit"@),
        glyph('🚀', "rocket"@, "launch ship"@),
        glyph('🐛', "bug"@, "debug defect"@),
        glyph('✅', "check button"@, "done ok"@),
        glyph('❌', "cross mark"@, "no fail wrong"@),
        glyph('💡', "light bulb"@, "idea"@),
        glyph('📌', "pushpin"@, "pin"@),
        glyph('🎯', "target"@, "goal bullseye"@),
        glyph('⏰', "alarm clock"@, "time reminder"@),
        glyph('📝', "memo"@, "note write"@),
    ]
}

fn glyphs() -> (r: Vec<Glyph>)
    ensures
        r@.map_values(|g: Glyph| glyph_view(g)) == table(),
{
    let r: Vec<Glyph> = vec![
        Glyph { symbol: 'α', name: "alpha", keywords: "greek" },
        Glyph { symbol: 'β', name: "beta", keywords: "greek" },
        Glyph { symbol: 'γ', name: "gamma", keywords: "greek" },
        Glyph { symbol: 'δ', name: "delta", keywords: "greek" },
        Glyph { symbol: 'ε', name: "epsilon", keywords: "greek" },
        Glyph { symbol: 'ζ', name: "zeta", keywords: "greek" },
        Glyph { symbol: 'η', name: "eta", keywords: "greek" },
        Glyph { symbol: 'θ', name: "theta", keywords: "greek" },
        Glyph { symbol: 'ι', name: "iota", keywords: "greek" },
        Glyph { symbol: 'κ', name: "kappa", keywords: "greek" },
        Glyph { symbol: 'λ', name: "lambda", keywords: "greek" },
        Glyph { symbol: 'μ', name: "mu", keywords: "greek micro" },
        Glyph { symbol: 'ν', name: "nu", keywords: "greek" },
        Glyph { symbol: 'ξ', name: "xi", keywords: "greek" },
        Glyph { symbol: 'π', name: "pi", keywords: "greek" },
        Glyph { symbol: 'ρ', name: "rho", keywords: "greek" },
        Glyph { symbol: 'σ', name: "sigma", keywords: "greek" },
        Glyph { symbol: 'τ', name: "tau", keywords: "greek" },
        Glyph { symbol: 'φ', name: "phi", keywords: "greek" },
        Glyph { symbol: 'χ', name: "chi", keywords: "greek" },
        Glyph { symbol: 'ψ', name: "psi", keywords: "greek" },
        Glyph { symbol: 'ω', name: "omega", keywords: "greek" },
        Glyph { symbol: 'Γ', name: "Gamma", keywords: "greek upper" },
        Glyph { symbol: 'Δ', name: "Delta", keywords: "greek upper change" },
        Glyph { symbol: 'Θ', name: "Theta", keywords: "greek upper" },
        Glyph { symbol: 'Λ', name: "Lambda", keywords: "greek upper" },
        Glyph { symbol: 'Π', name: "Pi", keywords: "greek upper product" },
        Glyph { symbol: 'Σ', name: "Sigma", keywords: "greek upper sum" },
        Glyph { symbol: 'Φ', name: "Phi", keywords: "greek upper" },
        Glyph { symbol: 'Ψ', name: "Psi", keywords: "greek upper" },
        Glyph { symbol: 'Ω', name: "Omega", keywords: "greek upper ohm" },
        Glyph { symbol: '∑', name: "summation", keywords: "sum sigma" },
        Glyph { symbol: '∏', name: "product", keywords: "prod pi" },
        Glyph { symbol: '∫', name: "integral", keywords: "calculus" },
        Glyph { symbol: '∂', name: "partial derivative", keywords: "del" },
        Glyph { symbol: '∇', name: "nabla", keywords: "gradient del" },
        Glyph { symbol: '√', name: "square root", keywords: "radical sqrt" },
        Glyph { symbol: '∞', name: "infinity", keywords: "inf" },
        Glyph { symbol: '≈', name: "approximately equal", keywords: "approx" },
        Glyph { symbol: '≠', name: "not equal", keywords: "neq" },
        Glyph { symbol: '≤', name: "less than or equal", keywords: "leq" },
        Glyph { symbol: '≥', name: "greater than or equal", keywords: "geq" },
        Glyph { symbol: '±', name: "plus minus", keywords: "pm" },
        Glyph { symbol: '×', name: "multiplication", keywords: "times cross" },
        Glyph { symbol: '÷', name: "division", keywords: "divide" },
        Glyph { symbol: '·', name: "middle dot", keywords: "cdot dot product" },
        Glyph { symbol: '∝', name: "proportional to", keywords: "prop" },
        Glyph { symbol: '∈', name: "element of", keywords: "in member" },
        Glyph { symbol: '∉', name: "not element of", keywords: "notin" },
        Glyph { symbol: '⊂', name: "subset of", keywords: "subset" },
        Glyph { symbol: '⊆', name: "subset or equal", keywords: "subseteq" },
        Glyph { symbol: '∪', name: "union", keywords: "set" },
        Glyph { symbol: '∩', name: "intersection", keywords: "set" },
        Glyph { symbol: '∅', name: "empty set", keywords: "emptyset null" },
        Glyph { symbol: '∀', name: "for all", keywords: "forall" },
        Glyph { symbol: '∃', name: "there exists", keywords: "exists" },
        Glyph { symbol: '¬', name: "logical not", keywords: "negation" },
        Glyph { symbol: '∧', name: "logical and", keywords: "wedge" },
        Glyph { symbol: '∨', name: "logical or", keywords: "vee" },
        Glyph { symbol: '⊕', name: "direct sum", keywords: "xor oplus" },
        Glyph { symbol: '⊗', name: "tensor product", keywords: "otimes" },
        Glyph { symbol: '→', name: "rightwards arrow", keywords: "arrow to implies" },
        Glyph { symbol: '←', name: "leftwards arrow", keywords: "arrow" },
        Glyph { symbol: '↔', name: "left right arrow", keywords: "iff" },
        Glyph { symbol: '⇒', name: "rightwards double arrow", keywords: "implies" },
        Glyph { symbol: '⇔', name: "left right double arrow", keywords: "iff equiv" },
        Glyph { symbol: '≡', name: "identical to", keywords: "equiv" },
        Glyph { symbol: '∴', name: "therefore", keywords: "qed" },
        Glyph { symbol: '∵', name: "because", keywords: "since" },
        Glyph { symbol: 'ℝ', name: "real numbers", keywords: "reals" },
        Glyph { symbol: 'ℕ', name: "natural numbers", keywords: "naturals" },
        Glyph { symbol: 'ℤ', name: "integers", keywords: "ints" },
        Glyph { symbol: 'ℚ', name: "rationals", keywords: "rationals" },
        Glyph { symbol: 'ℂ', name: "complex numbers", keywords: "complex" },
        Glyph { symbol: '°', name: "degree", keywords: "degrees" },
        Glyph { symbol: '′', name: "prime", keywords: "minutes feet" },
        Glyph { symbol: '″', name: "double prime", keywords: "seconds inches" },
        Glyph { symbol: 'ℓ', name: "script l", keywords: "liter" },
        Glyph { symbol: '✓', name: "check mark", keywords: "tick done yes" },
        Glyph { symbol: '✗', name: "ballot x", keywords: "cross no fail" },
        Glyph { symbol: '★', name: "star filled", keywords: "favorite" },
        Glyph { symbol: '☆', name: "star outline", keywords: "favorite" },
        Glyph { symbol: '⚠', name: "warning sign", keywords: "caution" },
        Glyph { symbol: '→', name: "arrow", keywords: "next" },
        Glyph { symbol: '🔥', name: "fire", keywords: "hot lit" },
        Glyph { symbol: '🚀', name: "rocket", keywords: "launch ship" },
        Glyph { symbol: '🐛', name: "bug", keywords: "debug defect" },
        Glyph { symbol: '✅', name: "check button", keywords: "done ok" },
        Glyph { symbol: '❌', name: "cross mark", keywords: "no fail wrong" },
        Glyph { symbol: '💡', name: "light bulb", keywords: "idea" },
        Glyph { symbol: '📌', name: "pushpin", keywords: "pin" },
        Glyph { symbol: '🎯', name: "target", keywords: "goal bullseye" },
        Glyph { symbol: '⏰', name: "alarm clock", keywords: "time reminder" },
        Glyph { symbol: '📝', name: "memo", keywords: "note write" },
    ];
    assert(r@.map_values(|g: Glyph| glyph_view(g)) =~= table());
    r
}

/// The text that a symbol is found in: its name and its other words, as they are
/// written. A query is in lower case, so a capital letter is never part of a match.
pub open spec fn haystack(g: GlyphView) -> Seq<char> {
    g.name + " "@ + g.keywords
}

/// The score of a symbol by where the query stands in its text, as a bit pattern:
/// 0.7, and 0.01 less for each place, but not below 0.45.
pub open spec fn symbol_score(pos: int) -> u64 {
    if pos == 0 {
        0x3FE6_6666_6666_6666
    } else if pos == 1 {
        0x3FE6_147A_E147_AE14
    } else if pos == 2 {
        0x3FE5_C28F_5C28_F5C2
    } else if pos == 3 {
        0x3FE5_70A3_D70A_3D70
    } else if pos == 4 {
        0x3FE5_1EB8_51EB_851E
    } else if pos == 5 {
        0x3FE4_CCCC_CCCC_CCCC
    } else if pos == 6 {
        0x3FE4_7AE1_47AE_147A
    } else if pos == 7 {
        0x3FE4_28F5_C28F_5C28
    } else if pos == 8 {
        0x3FE3_D70A_3D70_A3D7
    } else if pos == 9 {
        0x3FE3_851E_B851_EB85
    } else if pos == 10 {
        0x3FE3_3333_3333_3333
    } else if pos == 11 {
        0x3FE2_E147_AE14_7AE1
    } else if pos == 12 {
        0x3FE2_8F5C_28F5_C28F
    } else if pos == 13 {
        0x3FE2_3D70_A3D7_0A3D
    } else if pos == 14 {
        0x3FE1_EB85_1EB8_51EB
    } else if pos == 15 {
        0x3FE1_9999_9999_9999
    } else if pos == 16 {
        0x3FE1_47AE_147A_E147
    } else if pos == 17 {
        0x3FE0_F5C2_8F5C_28F5
    } else if pos == 18 {
        0x3FE0_A3D7_0A3D_70A4
    } else if pos == 19 {
        0x3FE0_51EB_851E_B852
    } else if pos == 20 {
        0x3FDF_FFFF_FFFF_FFFF
    } else if pos == 21 {
        0x3FDF_5C28_F5C2_8F5C
    } else if pos == 22 {
        0x3FDE_B851_EB85_1EB8
    } else if pos == 23 {
        0x3FDE_147A_E147_AE14
    } else if pos == 24 {
        0x3FDD_70A3_D70A_3D70
    } else {
        0x3FDC_CCCC_CCCC_CCCC
    }
}

fn score_of_pos(pos: usize) -> (r: u64)
    ensures
        r == symbol_score(pos as int),
{
    match pos {
        0 => 0x3FE6_6666_6666_6666,
        1 => 0x3FE6_147A_E147_AE14,
        2 => 0x3FE5_C28F_5C28_F5C2,
        3 => 0x3FE5_70A3_D70A_3D70,
        4 => 0x3FE5_1EB8_51EB_851E,
        5 => 0x3FE4_CCCC_CCCC_CCCC,
        6 => 0x3FE4_7AE1_47AE_147A,
        7 => 0x3FE4_28F5_C28F_5C28,
        8 => 0x3FE3_D70A_3D70_A3D7,
        9 => 0x3FE3_851E_B851_EB85,
        10 => 0x3FE3_3333_3333_3333,
        11 => 0x3FE2_E147_AE14_7AE1,
        12 => 0x3FE2_8F5C_28F5_C28F,
        13 => 0x3FE2_3D70_A3D7_0A3D,
        14 => 0x3FE1_EB85_1EB8_51EB,
        15 => 0x3FE1_9999_9999_9999,
        16 => 0x3FE1_47AE_147A_E147,
        17 => 0x3FE0_F5C2_8F5C_28F5,
        18 => 0x3FE0_A3D7_0A3D_70A4,
        19 => 0x3FE0_51EB_851E_B852,
        20 => 0x3FDF_FFFF_FFFF_FFFF,
        21 => 0x3FDF_5C28_F5C2_8F5C,
        22 => 0x3FDE_B851_EB85_1EB8,
        23 => 0x3FDE_147A_E147_AE14,
        24 => 0x3FDD_70A3_D70A_3D70,
        _ => 0x3FDC_CCCC_CCCC_CCCC,
    }
}

// ---------------------------------------------------------------------------
// Code points
// ---------------------------------------------------------------------------

/// A hexadecimal digit in upper case.
pub open spec fn upper_hex_digit(d: int) -> char {
    if d < 10 {
        (('0' as u32) + d) as char
    } else {
        (('A' as u32) + d - 10) as char
    }
}

/// A number in hexadecimal with at least `width` digits.
pub open spec fn upper_hex(n: nat, width: nat) -> Seq<char>
    decreases n, width,
{
    if n == 0 && width == 0 {
        Seq::empty()
    } else {
        let narrower = if width == 0 {
            0nat
        } else {
            (width - 1) as nat
        };
        upper_hex(n / 16, narrower).push(upper_hex_digit((n % 16) as int))
    }
}

fn upper_digit(d: u32) -> (r: char)
    requires
        d < 16,
    ensures
        r == upper_hex_digit(d as int),
{
    if d < 10 {
        let b: u8 = d as u8;
        (0x30 + b) as char
    } else {
        let b: u8 = d as u8;
        (0x41 + (b - 10)) as char
    }
}

fn upper_hex_string(n: u32, width: u8) -> (r: Vec<char>)
    ensures
        r@ == upper_hex(n as nat, width as nat),
    decreases n, width,
{
    if n == 0 && width == 0 {
        return Vec::new();
    }
    let narrower: u8 = if width == 0 {
        0
    } else {
        width - 1
    };
    let mut out = upper_hex_string(n / 16, narrower);
    out.push(upper_digit(n % 16));
    out
}

// ---------------------------------------------------------------------------
// Searching
// ---------------------------------------------------------------------------

/// The item of a symbol where the query was found at `pos`.
pub open spec fn symbol_item(g: GlyphView, pos: int) -> ItemView {
    ItemView {
        id: seq![g.symbol],
        provider: "unicode"@,
        title: seq![g.symbol] + "  "@ + g.name,
        subtitle: Some("U+"@ + upper_hex(g.symbol as nat, 4) + "  ·  copy"@),
        icon: Some("unicode"@),
        icon_path: None,
        score: clamped(symbol_score(pos)),
    }
}

/// The items of the symbols of a table that a query finds, in the order of the
/// table.
pub open spec fn symbol_items(all: Seq<GlyphView>, q: Seq<char>) -> Seq<ItemView>
    decreases all.len(),
{
    if all.len() == 0 {
        Seq::empty()
    } else {
        match find(haystack(all.last()), q) {
            Some(pos) => symbol_items(all.drop_last(), q).push(symbol_item(all.last(), pos)),
            None => symbol_items(all.drop_last(), q),
        }
    }
}

/// What a search for a text in lower case shows: nothing for less than two bytes.
pub open spec fn symbols_shown(q: Seq<char>) -> Seq<ItemView> {
    if (encode_utf8(q).len() as usize) < 2 {
        Seq::empty()
    } else {
        at_most(symbol_items(table(), q), MAX_SYMBOLS as int)
    }
}

fn item_of(g: &Glyph, pos: usize) -> (r: PaletteItem)
    ensures
        r.deep_view() == symbol_item(glyph_view(*g), pos as int),
{
    let mut id = String::new();
    id.push(g.symbol);
    assert(id@ =~= seq![g.symbol]);
    let title = text::concat3(&id, "  ", g.name);
    let code = text::string(&upper_hex_string(g.symbol as u32, 4));
    let subtitle = text::concat3("U+", &code, "  ·  copy");
    PaletteItem::new(UNICODE_PROVIDER, id, title).with_subtitle(subtitle).with_icon(
        "unicode",
    ).with_score(score_of_pos(pos))
}

/// Further symbols only add items behind those that are there.
proof fn lemma_items_grow(all: Seq<GlyphView>, q: Seq<char>, n: int)
    requires
        0 <= n <= all.len(),
    ensures
        symbol_items(all.take(n), q).len() <= symbol_items(all, q).len(),
        symbol_items(all, q).take(symbol_items(all.take(n), q).len() as int) == symbol_items(
            all.take(n),
            q,
        ),
    decreases all.len() - n,
{
    let a = symbol_items(all.take(n), q);
    let whole = symbol_items(all, q);
    if n < all.len() {
        let b = symbol_items(all.take(n + 1), q);
        lemma_items_grow(all, q, n + 1);
        assert(all.take(n + 1).drop_last() =~= all.take(n));
        assert(b.take(a.len() as int) =~= a);
        assert(whole.take(a.len() as int) =~= whole.take(b.len() as int).take(a.len() as int));
    } else {
        assert(all.take(n) =~= all);
        assert(whole.take(whole.len() as int) =~= whole);
    }
}

fn found_in(all: &[Glyph], q: &str) -> (r: Vec<PaletteItem>)
    ensures
        r.deep_view() == at_most(
            symbol_items(all@.map_values(|g: Glyph| glyph_view(g)), q@),
            MAX_SYMBOLS as int,
        ),
{
    let ghost gv = all@.map_values(|g: Glyph| glyph_view(g));
    let qs = text::chars(q);
    let mut out: Vec<PaletteItem> = Vec::new();
    let mut i: usize = 0;
    assert(out.deep_view() =~= symbol_items(gv.take(0), q@));
    while i < all.len() && out.len() < MAX_SYMBOLS
        invariant
            i <= all@.len(),
            gv == all@.map_values(|g: Glyph| glyph_view(g)),
            qs@ == q@,
            out@.len() <= MAX_SYMBOLS,
            out.deep_view() == symbol_items(gv.take(i as int), q@),
        decreases all@.len() - i,
    {
        let ghost before = out.deep_view();
        assert(gv.take(i + 1).drop_last() =~= gv.take(i as int));
        let g = all[i];
        assert(gv.take(i + 1).last() == glyph_view(g));
        let hay = text::concat3(g.name, " ", g.keywords);
        let hs = text::chars(&hay);
        if let Some(pos) = text::find_chars(&hs, &qs) {
            out.push(item_of(&g, pos));
            assert(out.deep_view() =~= before.push(symbol_item(glyph_view(g), pos as int)));
        }
        i += 1;
    }
    proof {
        lemma_items_grow(gv, q@, i as int);
        let whole = symbol_items(gv, q@);
        if i == all@.len() {
            assert(gv.take(i as int) =~= gv);
            assert(whole.take(whole.len() as int) =~= whole);
        }
        assert(out.deep_view().len() == out@.len());
        assert(out.deep_view() =~= at_most(whole, MAX_SYMBOLS as int));
    }
    out
}

/// The provider of symbols.
#[derive(Debug, Clone, Copy, PartialEq, Eq)]
pub struct UnicodeProvider;

impl UnicodeProvider {
    pub fn new() -> (r: Self) {
        UnicodeProvider
    }

    /// The symbols that a query in lower case finds.
    pub fn matching(&self, q: &str) -> (r: Vec<PaletteItem>)
        ensures
            r.deep_view() == symbols_shown(q@),
    {
        if q.len() < 2 {
            let none: Vec<PaletteItem> = Vec::new();
            assert(none.deep_view() =~= Seq::empty());
            return none;
        }
        let all = glyphs();
        found_in(&all, q)
    }

    /// The symbols that a query finds.
    pub fn search(&self, query: &str) -> (r: Vec<PaletteItem>)
        ensures
            r.deep_view() == symbols_shown(lowercase(trim(query@))),
    {
        let q = to_lowercase(&text::trimmed(query));
        self.matching(&q)
    }
}

/// A symbol that is found at the beginning of its text is scored 0.7, and 0.01 less for each place behind it, but none below 0.45.
pub proof fn law_symbol_scores_go_down_by_places(place: int)
    requires
        0 <= place,
    ensures
        near(
            symbol_score(place),
            70 - 1 * (if place < 25 {
                place
            } else {
                25
            }),
            100,
        ),
{
    lemma2_to64();
    lemma2_to64_rest();
    assert(near(0x3FE6_6666_6666_6666, 70, 100));
    assert(near(0x3FE6_147A_E147_AE14, 69, 100));
    assert(near(0x3FE5_C28F_5C28_F5C2, 68, 100));
    assert(near(0x3FE5_70A3_D70A_3D70, 67, 100));
    assert(near(0x3FE5_1EB8_51EB_851E, 66, 100));
    assert(near(0x3FE4_CCCC_CCCC_CCCC, 65, 100));
    assert(near(0x3FE4_7AE1_47AE_147A, 64, 100));
    assert(near(0x3FE4_28F5_C28F_5C28, 63, 100));
    assert(near(0x3FE3_D70A_3D70_A3D7, 62, 100));
    assert(near(0x3FE3_851E_B851_EB85, 61, 100));
    assert(near(0x3FE3_3333_3333_3333, 60, 100));
    assert(near(0x3FE2_E147_AE14_7AE1, 59, 100));
    assert(near(0x3FE2_8F5C_28F5_C28F, 58, 100));
    assert(near(0x3FE2_3D70_A3D7_0A3D, 57, 100));
    assert(near(0x3FE1_EB85_1EB8_51EB, 56, 100));
    assert(near(0x3FE1_9999_9999_9999, 55, 100));
    assert(near(0x3FE1_47AE_147A_E147, 54, 100));
    assert(near(0x3FE0_F5C2_8F5C_28F5, 53, 100));
    assert(near(0x3FE0_A3D7_0A3D_70A4, 52, 100));
    assert(near(0x3FE0_51EB_851E_B852, 51, 100));
    assert(near(0x3FDF_FFFF_FFFF_FFFF, 50, 100));
    assert(near(0x3FDF_5C28_F5C2_8F5C, 49, 100));
    assert(near(0x3FDE_B851_EB85_1EB8, 48, 100));
    assert(near(0x3FDE_147A_E147_AE14, 47, 100));
    assert(near(0x3FDD_70A3_D70A_3D70, 46, 100));
    assert(near(0x3FDC_CCCC_CCCC_CCCC, 45, 100));
}

/// Every symbol whose text holds the query is shown, in the order of the table, with its
/// name and its code point; it is scored by where the query first stands.
pub proof fn law_symbols_are_found(all: Seq<GlyphView>, g: GlyphView, q: Seq<char>)
    ensures
        ({
            let text = g.name + " "@ + g.keywords;
            let found = exists|i: int|
                0 <= i && i + q.len() <= text.len() && #[trigger] text.subrange(i, i + q.len()) == q;
            &&& symbol_items(Seq::empty(), q).len() == 0
            &&& !found ==> symbol_items(all.push(g), q) == symbol_items(all, q)
            &&& found ==> exists|i: int|
                {
                    &&& 0 <= i && i + q.len() <= text.len()
                    &&& #[trigger] text.subrange(i, i + q.len()) == q
                    &&& forall|k: int| 0 <= k < i ==> #[trigger] text.subrange(k, k + q.len()) != q
                    &&& symbol_items(all.push(g), q) == symbol_items(all, q).push(
                        ItemView {
                            id: seq![g.symbol],
                            provider: "unicode"@,
                            title: seq![g.symbol] + "  "@ + g.name,
                            subtitle: Some("U+"@ + upper_hex(g.symbol as nat, 4) + "  ·  copy"@),
                            icon: Some("unicode"@),
                            icon_path: None,
                            score: clamped(symbol_score(i)),
                        },
                    )
                }
        }),
        (encode_utf8(q).len() as usize) < 2 ==> symbols_shown(q).len() == 0,
        symbols_shown(q).len() <= 12,
        !((encode_utf8(q).len() as usize) < 2) ==> forall|i: int|
            0 <= i < symbols_shown(q).len() ==> #[trigger] symbols_shown(q)[i] == symbol_items(
                table(),
                q,
            )[i],
{
    assert(all.push(g).drop_last() =~= all);
    let text = g.name + " "@ + g.keywords;
    law_searches_are_true(text, q);
    match find(text, q) {
        Some(i) => {
            law_searches_find_the_first(text, q, i);
            assert(text.subrange(i, i + q.len()) == q);
        },
        None => {},
    }
}

/// A code point is shown in hexadecimal with its digits in order.
pub proof fn law_code_points(n: nat, width: nat)
    ensures
        n > 0 || width > 0 ==> upper_hex(n, width).drop_last() == upper_hex(
            n / 16,
            if width == 0 {
                0
            } else {
                (width - 1) as nat
            },
        ),
        n > 0 || width > 0 ==> upper_hex(n, width).last() as u32 == (if n % 16 < 10 {
            0x30 + n % 16
        } else {
            0x37 + n % 16
        }),
        upper_hex(0, 0).len() == 0,
{
    if n > 0 || width > 0 {
        let w = if width == 0 {
            0
        } else {
            (width - 1) as nat
        };
        let d = (n % 16) as int;
        let s = upper_hex(n / 16, w);
        assert(s.push(upper_hex_digit(d)).drop_last() =~= s);
    }
}

/// The code points of the symbols, in the order of the table.
pub open spec fn code_points() -> Seq<u32> {
    seq![
        0x3B1,
        0x3B2,
        0x3B3,
        0x3B4,
        0x3B5,
        0x3B6,
        0x3B7,
        0x3B8,
        0x3B9,
        0x3BA,
        0x3BB,
        0x3BC,
        0x3BD,
        0x3BE,
        0x3C0,
        0x3C1,
        0x3C3,
        0x3C4,
        0x3C6,
        0x3C7,
        0x3C8,
        0x3C9,
        0x393,
        0x394,
        0x398,
        0x39B,
        0x3A0,
        0x3A3,
        0x3A6,
        0x3A8,
        0x3A9,
        0x2211,
        0x220F,
        0x222B,
        0x2202,
        0x2207,
        0x221A,
        0x221E,
        0x2248,
        0x2260,
        0x2264,
        0x2265,
        0xB1,
        0xD7,
        0xF7,
        0xB7,
        0x221D,
        0x2208,
        0x2209,
        0x2282,
        0x2286,
        0x222A,
        0x2229,
        0x2205,
        0x2200,
        0x2203,
        0xAC,
        0x2227,
        0x2228,
        0x2295,
        0x2297,
        0x2192,
        0x2190,
        0x2194,
        0x21D2,
        0x21D4,
        0x2261,
        0x2234,
        0x2235,
        0x211D,
        0x2115,
        0x2124,
        0x211A,
        0x2102,
        0xB0,
        0x2032,
        0x2033,
        0x2113,
        0x2713,
        0x2717,
        0x2605,
        0x2606,
        0x26A0,
        0x2192,
        0x1F525,
        0x1F680,
        0x1F41B,
        0x2705,
        0x274C,
        0x1F4A1,
        0x1F4CC,
        0x1F3AF,
        0x23F0,
        0x1F4DD,
    ]
}

/// The symbols are those of their code points.
pub proof fn law_symbols_have_their_code_points(i: int)
    requires
        0 <= i < table().len(),
    ensures
        table().len() == code_points().len(),
        table()[i].symbol as u32 == code_points()[i],
{
}

/// The small Greek letters stand in the order of their code points, and the code point of a
/// capital letter is thirty-two less than that of its small one.
pub proof fn law_greek_letters(i: int, j: int)
    ensures
        0 <= i < j < 22 ==> (table()[i].symbol as u32) < (table()[j].symbol as u32),
        table()[22].symbol as u32 + 32 == table()[2].symbol as u32,
        table()[23].symbol as u32 + 32 == table()[3].symbol as u32,
        table()[24].symbol as u32 + 32 == table()[7].symbol as u32,
        table()[25].symbol as u32 + 32 == table()[10].symbol as u32,
        table()[26].symbol as u32 + 32 == table()[14].symbol as u32,
        table()[27].symbol as u32 + 32 == table()[16].symbol as u32,
        table()[28].symbol as u32 + 32 == table()[18].symbol as u32,
        table()[29].symbol as u32 + 32 == table()[20].symbol as u32,
        table()[30].symbol as u32 + 32 == table()[21].symbol as u32,
{
}

/// What the symbols are called and what else they are found by.
pub proof fn law_names_of_symbols()
    ensures
        table().len() == 94,
        table()[0].name == "alpha"@ && table()[0].keywords == "greek"@,
        table()[1].name == "beta"@ && table()[1].keywords == "greek"@,
        table()[2].name == "gamma"@ && table()[2].keywords == "greek"@,
        table()[3].name == "delta"@ && table()[3].keywords == "greek"@,
        table()[4].name == "epsilon"@ && table()[4].keywords == "greek"@,
        table()[5].name == "zeta"@ && table()[5].keywords == "greek"@,
        table()[6].name == "eta"@ && table()[6].keywords == "greek"@,
        table()[7].name == "theta"@ && table()[7].keywords == "greek"@,
        table()[8].name == "iota"@ && table()[8].keywords == "greek"@,
        table()[9].name == "kappa"@ && table()[9].keywords == "greek"@,
        table()[10].name == "lambda"@ && table()[10].keywords == "greek"@,
        table()[11].name == "mu"@ && table()[11].keywords == "greek micro"@,
        table()[12].name == "nu"@ && table()[12].keywords == "greek"@,
        table()[13].name == "xi"@ && table()[13].keywords == "greek"@,
        table()[14].name == "pi"@ && table()[14].keywords == "greek"@,
        table()[15].name == "rho"@ && table()[15].keywords == "greek"@,
        table()[16].name == "sigma"@ && table()[16].keywords == "greek"@,
        table()[17].name == "tau"@ && table()[17].keywords == "greek"@,
        table()[18].name == "phi"@ && table()[18].keywords == "greek"@,
        table()[19].name == "chi"@ && table()[19].keywords == "greek"@,
        table()[20].name == "psi"@ && table()[20].keywords == "greek"@,
        table()[21].name == "omega"@ && table()[21].keywords == "greek"@,
        table()[22].name == "Gamma"@ && table()[22].keywords == "greek upper"@,
        table()[23].name == "Delta"@ && table()[23].keywords == "greek upper change"@,
        table()[24].name == "Theta"@ && table()[24].keywords == "greek upper"@,
        table()[25].name == "Lambda"@ && table()[25].keywords == "greek upper"@,
        table()[26].name == "Pi"@ && table()[26].keywords == "greek upper product"@,
        table()[27].name == "Sigma"@ && table()[27].keywords == "greek upper sum"@,
        table()[28].name == "Phi"@ && table()[28].keywords == "greek upper"@,
        table()[29].name == "Psi"@ && table()[29].keywords == "greek upper"@,
        table()[30].name == "Omega"@ && table()[30].keywords == "greek upper ohm"@,
        table()[31].name == "summation"@ && table()[31].keywords == "sum sigma"@,
        table()[32].name == "product"@ && table()[32].keywords == "prod pi"@,
        table()[33].name == "integral"@ && table()[33].keywords == "calculus"@,
        table()[34].name == "partial derivative"@ && table()[34].keywords == "del"@,
        table()[35].name == "nabla"@ && table()[35].keywords == "gradient del"@,
        table()[36].name == "square root"@ && table()[36].keywords == "radical sqrt"@,
        table()[37].name == "infinity"@ && table()[37].keywords == "inf"@,
        table()[38].name == "approximately equal"@ && table()[38].keywords == "approx"@,
        table()[39].name == "not equal"@ && table()[39].keywords == "neq"@,
        table()[40].name == "less than or equal"@ && table()[40].keywords == "leq"@,
        table()[41].name == "greater than or equal"@ && table()[41].keywords == "geq"@,
        table()[42].name == "plus minus"@ && table()[42].keywords == "pm"@,
        table()[43].name == "multiplication"@ && table()[43].keywords == "times cross"@,
        table()[44].name == "division"@ && table()[44].keywords == "divide"@,
        table()[45].name == "middle dot"@ && table()[45].keywords == "cdot dot product"@,
        table()[46].name == "proportional to"@ && table()[46].keywords == "prop"@,
        table()[47].name == "element of"@ && table()[47].keywords == "in member"@,
        table()[48].name == "not element of"@ && table()[48].keywords == "notin"@,
        table()[49].name == "subset of"@ && table()[49].keywords == "subset"@,
        table()[50].name == "subset or equal"@ && table()[50].keywords == "subseteq"@,
        table()[51].name == "union"@ && table()[51].keywords == "set"@,
        table()[52].name == "intersection"@ && table()[52].keywords == "set"@,
        table()[53].name == "empty set"@ && table()[53].keywords == "emptyset null"@,
        table()[54].name == "for all"@ && table()[54].keywords == "forall"@,
        table()[55].name == "there exists"@ && table()[55].keywords == "exists"@,
        table()[56].name == "logical not"@ && table()[56].keywords == "negation"@,
        table()[57].name == "logical and"@ && table()[57].keywords == "wedge"@,
        table()[58].name == "logical or"@ && table()[58].keywords == "vee"@,
        table()[59].name == "direct sum"@ && table()[59].keywords == "xor oplus"@,
        table()[60].name == "tensor product"@ && table()[60].keywords == "otimes"@,
        table()[61].name == "rightwards arrow"@ && table()[61].keywords == "arrow to implies"@,
        table()[62].name == "leftwards arrow"@ && table()[62].keywords == "arrow"@,
        table()[63].name == "left right arrow"@ && table()[63].keywords == "iff"@,
        table()[64].name == "rightwards double arrow"@ && table()[64].keywords == "implies"@,
        table()[65].name == "left right double arrow"@ && table()[65].keywords == "iff equiv"@,
        table()[66].name == "identical to"@ && table()[66].keywords == "equiv"@,
        table()[67].name == "therefore"@ && table()[67].keywords == "qed"@,
        table()[68].name == "because"@ && table()[68].keywords == "since"@,
        table()[69].name == "real numbers"@ && table()[69].keywords == "reals"@,
        table()[70].name == "natural numbers"@ && table()[70].keywords == "naturals"@,
        table()[71].name == "integers"@ && table()[71].keywords == "ints"@,
        table()[72].name == "rationals"@ && table()[72].keywords == "rationals"@,
        table()[73].name == "complex numbers"@ && table()[73].keywords == "complex"@,
        table()[74].name == "degree"@ && table()[74].keywords == "degrees"@,
        table()[75].name == "prime"@ && table()[75].keywords == "minutes feet"@,
        table()[76].name == "double prime"@ && table()[76].keywords == "seconds inches"@,
        table()[77].name == "script l"@ && table()[77].keywords == "liter"@,
        table()[78].name == "check mark"@ && table()[78].keywords == "tick done yes"@,
        table()[79].name == "ballot x"@ && table()[79].keywords == "cross no fail"@,
        table()[80].name == "star filled"@ && table()[80].keywords == "favorite"@,
        table()[81].name == "star outline"@ && table()[81].keywords == "favorite"@,
        table()[82].name == "warning sign"@ && table()[82].keywords == "caution"@,
        table()[83].name == "arrow"@ && table()[83].keywords == "next"@,
        table()[84].name == "fire"@ && table()[84].keywords == "hot lit"@,
        table()[85].name == "rocket"@ && table()[85].keywords == "launch ship"@,
        table()[86].name == "bug"@ && table()[86].keywords == "debug defect"@,
        table()[87].name == "check button"@ && table()[87].keywords == "done ok"@,
        table()[88].name == "cross mark"@ && table()[88].keywords == "no fail wrong"@,
        table()[89].name == "light bulb"@ && table()[89].keywords == "idea"@,
        table()[90].name == "pushpin"@ && table()[90].keywords == "pin"@,
        table()[91].name == "target"@ && table()[91].keywords == "goal bullseye"@,
        table()[92].name == "alarm clock"@ && table()[92].keywords == "time reminder"@,
        table()[93].name == "memo"@ && table()[93].keywords == "note write"@,
{
}

} // verus!
