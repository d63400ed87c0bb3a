//! The menu tree.
//!
//! A menu is a tree of sections. A section's item list interleaves
//! literal text and references to its subsections, each item encoded as a
//! tagged string: `t:<text>` for text, `s:<index>` for the subsection at
//! that index. The index is written in canonical decimal, so every item
//! has exactly one encoding and the codec round-trips.

use vstd::prelude::*;
use vstd::arithmetic::div_mod::{lemma_fundamental_div_mod, lemma_fundamental_div_mod_converse};
use vstd::arithmetic::mul::lemma_mul_inequality;
use crate::attr::{Attribute, AttributeSet, push_bytes};

verus! {

/// The documented base vocabulary of menu kinds. Extensions may add new
/// kinds beyond these; the wire form is the open-ended tag itself.
#[derive(Clone, Copy, PartialEq, Eq, Structural, Debug)]
pub enum MenuContext {
    Invisible,
    Main,
    Pause,
    Inventory,
    Summary,
    Loadout,
}

/// The wire tag of each base menu kind.
pub open spec fn spec_kind_tag(c: MenuContext) -> Seq<u8> {
    match c {
        MenuContext::Invisible => seq![105u8, 110, 118, 105, 115, 105, 98, 108, 101],
        MenuContext::Main => seq![109u8, 97, 105, 110],
        MenuContext::Pause => seq![112u8, 97, 117, 115, 101],
        MenuContext::Inventory => seq![105u8, 110, 118, 101, 110, 116, 111, 114, 121],
        MenuContext::Summary => seq![115u8, 117, 109, 109, 97, 114, 121],
        MenuContext::Loadout => seq![108u8, 111, 97, 100, 111, 117, 116],
    }
}

impl MenuContext {
    /// The open-ended kind tag this base kind stands for: "invisible",
    /// "main", "pause", "inventory", "summary", or "loadout". Extensions
    /// write their own tags beside these.
    pub fn kind_tag(&self) -> (r: Vec<u8>)
        ensures
            r@ == spec_kind_tag(*self),
    {
        let mut r: Vec<u8> = Vec::new();
        match self {
            MenuContext::Invisible => {
                r.push(105);
                r.push(110);
                r.push(118);
                r.push(105);
                r.push(115);
                r.push(105);
                r.push(98);
                r.push(108);
                r.push(101);
            },
            MenuContext::Main => {
                r.push(109);
                r.push(97);
                r.push(105);
                r.push(110);
            },
            MenuContext::Pause => {
                r.push(112);
                r.push(97);
                r.push(117);
                r.push(115);
                r.push(101);
            },
            MenuContext::Inventory => {
                r.push(105);
                r.push(110);
                r.push(118);
                r.push(101);
                r.push(110);
                r.push(116);
                r.push(111);
                r.push(114);
                r.push(121);
            },
            MenuContext::Summary => {
                r.push(115);
                r.push(117);
                r.push(109);
                r.push(109);
                r.push(97);
                r.push(114);
                r.push(121);
            },
            MenuContext::Loadout => {
                r.push(108);
                r.push(111);
                r.push(97);
                r.push(100);
                r.push(111);
                r.push(117);
                r.push(116);
            },
        }
        assert(r@ =~= spec_kind_tag(*self));
        r
    }
}

/// One item of a section: literal text, or a reference to one of the
/// section's subsections by index.
#[derive(Debug)]
pub enum SectionItem {
    Text(Vec<u8>),
    SubsectionRef(usize),
}

/// The decimal digits of `n`, most significant first, no leading zero.
pub open spec fn dec_digits(n: nat) -> Seq<u8>
    decreases n,
{
    if n < 10 {
        seq![(48 + n) as u8]
    } else {
        dec_digits(n / 10).push((48 + n % 10) as u8)
    }
}

/// Every byte is a decimal digit.
pub open spec fn all_digits(s: Seq<u8>) -> bool {
    forall|i: int| 0 <= i < s.len() ==> 48 <= #[trigger] s[i] <= 57
}

/// A canonical decimal numeral: nonempty digits with no leading zero
/// (except the single digit `0` itself).
pub open spec fn canonical_decimal(s: Seq<u8>) -> bool {
    &&& all_digits(s)
    &&& s.len() >= 1
    &&& (s.len() > 1 ==> s[0] != 48)
}

/// The value a digit string denotes.
pub open spec fn parse_dec(s: Seq<u8>) -> int
    decreases s.len(),
{
    if s.len() == 0 {
        0
    } else {
        parse_dec(s.drop_last()) * 10 + (s.last() - 48)
    }
}

/// Digit strings denote nonnegative values; with a nonzero leading digit
/// the value is at least one.
proof fn lemma_parse_nonneg(s: Seq<u8>)
    requires
        all_digits(s),
    ensures
        parse_dec(s) >= 0,
        s.len() >= 1 && s[0] > 48 ==> parse_dec(s) >= 1,
    decreases s.len(),
{
    if s.len() > 0 {
        assert(forall|i: int| 0 <= i < s.len() - 1 ==> s.drop_last()[i] == s[i]);
        lemma_parse_nonneg(s.drop_last());
    }
}

/// A numeral always has at least one digit.
proof fn lemma_dec_digits_len(n: nat)
    ensures
        dec_digits(n).len() >= 1,
    decreases n,
{
    if n >= 10 {
        lemma_dec_digits_len(n / 10);
    }
}

/// The digits of `n` form a canonical numeral denoting `n`.
pub proof fn lemma_dec_digits(n: nat)
    ensures
        canonical_decimal(dec_digits(n)),
        parse_dec(dec_digits(n)) == n,
    decreases n,
{
    lemma_dec_digits_len(n);
    if n < 10 {
        let s0 = dec_digits(n);
        assert(s0 == seq![(48 + n) as u8]);
        assert(s0.drop_last() =~= Seq::<u8>::empty());
        assert(parse_dec(Seq::<u8>::empty()) == 0);
        assert(s0.last() == (48 + n) as u8);
        assert(parse_dec(s0) == n);
    } else {
        lemma_dec_digits(n / 10);
        lemma_dec_digits_len(n / 10);
        let d = dec_digits(n);
        let p = dec_digits(n / 10);
        assert(d == p.push((48 + n % 10) as u8));
        assert(d.drop_last() =~= p);
        assert(d.last() == (48 + n % 10) as u8);
        lemma_fundamental_div_mod(n as int, 10);
        assert(parse_dec(d) == parse_dec(p) * 10 + (n % 10));
        assert(n / 10 >= 1) by (nonlinear_arith)
            requires
                n >= 10,
        ;
        assert(p[0] != 48) by {
            if p.len() == 1 {
                // A one-digit numeral is its single digit.
                if n / 10 < 10 {
                    assert(p == seq![(48 + n / 10) as u8]);
                } else {
                    lemma_dec_digits_len(n / 10 / 10);
                    assert(p.len() >= 2);
                }
            }
        }
        assert(all_digits(d)) by {
            assert(forall|i: int| 0 <= i < p.len() ==> d[i] == p[i]);
        }
    }
}

/// A canonical numeral is exactly the digit string of its value.
pub proof fn lemma_canonical_digits(s: Seq<u8>)
    requires
        canonical_decimal(s),
    ensures
        parse_dec(s) >= 0,
        dec_digits(parse_dec(s) as nat) == s,
    decreases s.len(),
{
    lemma_parse_nonneg(s);
    if s.len() == 1 {
        let n = parse_dec(s);
        assert(s.drop_last() =~= Seq::<u8>::empty());
        assert(parse_dec(Seq::<u8>::empty()) == 0);
        assert(n == s[0] - 48);
        assert(n < 10);
        assert(dec_digits(n as nat) =~= seq![(48 + n) as u8]);
        assert(dec_digits(n as nat) =~= s);
    } else {
        let p = s.drop_last();
        assert(forall|i: int| 0 <= i < p.len() ==> p[i] == s[i]);
        assert(canonical_decimal(p));
        lemma_parse_nonneg(p);
        assert(parse_dec(p) >= 1);
        let n = parse_dec(s);
        let d = s.last() - 48;
        assert(n == parse_dec(p) * 10 + d);
        assert(n >= 10) by (nonlinear_arith)
            requires
                parse_dec(p) >= 1,
                0 <= d,
                n == parse_dec(p) * 10 + d,
        ;
        lemma_fundamental_div_mod_converse(n, 10, parse_dec(p), d);
        lemma_canonical_digits(p);
        assert(dec_digits(n as nat) == dec_digits(parse_dec(p) as nat).push((48 + d) as u8));
        assert(dec_digits(n as nat) =~= s);
    }
}

/// The tag bytes: `t` and `s`, with the `:` that follows them.
pub open spec fn item_encoded(item: SectionItem) -> Seq<u8> {
    match item {
        SectionItem::Text(t) => seq![116u8, 58u8] + t@,
        SectionItem::SubsectionRef(k) => seq![115u8, 58u8] + dec_digits(k as nat),
    }
}

/// Appends the decimal digits of `k`.
fn push_digits(out: &mut Vec<u8>, k: usize)
    ensures
        final(out)@ == old(out)@ + dec_digits(k as nat),
    decreases k,
{
    if k < 10 {
        out.push(48 + (k as u8));
        assert(out@ =~= old(out)@ + dec_digits(k as nat));
    } else {
        let ghost init = out@;
        push_digits(out, k / 10);
        out.push(48 + ((k % 10) as u8));
        assert(out@ =~= init + dec_digits((k / 10) as nat).push((48 + (k as nat) % 10) as u8));
        assert(dec_digits(k as nat) == dec_digits((k as nat) / 10).push((48 + (k as nat) % 10) as u8));
    }
}

/// The wire form of a section item: `t:<text>` or `s:<index>`.
pub fn encode_item(item: &SectionItem) -> (r: Vec<u8>)
    ensures
        r@ == item_encoded(*item),
{
    let mut r: Vec<u8> = Vec::new();
    match item {
        SectionItem::Text(t) => {
            r.push(116);
            r.push(58);
            push_bytes(&mut r, t);
            assert(r@ =~= item_encoded(*item));
        },
        SectionItem::SubsectionRef(k) => {
            r.push(115);
            r.push(58);
            push_digits(&mut r, *k);
            assert(r@ =~= item_encoded(*item));
        },
    }
    r
}

/// Reads a section item back from its wire form. Returns the item whose
/// encoding `s` is, and nothing at all when `s` encodes no item: a
/// missing or unknown tag, a non-canonical numeral, or an index beyond
/// `usize`.
pub fn decode_item(s: &Vec<u8>) -> (r: Option<SectionItem>)
    ensures
        match r {
            Some(item) => s@ == item_encoded(item),
            None => forall|item: SectionItem| s@ != #[trigger] item_encoded(item),
        },
{
    if s.len() < 2 {
        proof {
            assert forall|item: SectionItem| s@ != #[trigger] item_encoded(item) by {
                assert(item_encoded(item).len() >= 2);
            }
        }
        return None;
    }
    if s[1] != 58 {
        proof {
            assert forall|item: SectionItem| s@ != #[trigger] item_encoded(item) by {
                assert(item_encoded(item)[1] == 58);
            }
        }
        return None;
    }
    if s[0] == 116 {
        let mut text: Vec<u8> = Vec::new();
        let mut i: usize = 2;
        while i < s.len()
            invariant
                2 <= i <= s@.len(),
                text@ =~= s@.subrange(2, i as int),
            decreases s.len() - i,
        {
            text.push(s[i]);
            assert(text@ =~= s@.subrange(2, i + 1));
            i = i + 1;
        }
        let item = SectionItem::Text(text);
        proof {
            assert(s@ =~= item_encoded(item));
        }
        return Some(item);
    }
    if s[0] != 115 {
        proof {
            assert forall|item: SectionItem| s@ != #[trigger] item_encoded(item) by {
                assert(item_encoded(item)[0] == 116 || item_encoded(item)[0] == 115);
            }
        }
        return None;
    }
    // The tag is `s:`; the rest must be a canonical decimal index.
    let ghost digits = s@.skip(2);
    if s.len() == 2 {
        proof {
            assert forall|item: SectionItem| s@ != #[trigger] item_encoded(item) by {
                match item {
                    SectionItem::SubsectionRef(k) => {
                        lemma_dec_digits(k as nat);
                    },
                    _ => {},
                }
            }
        }
        return None;
    }
    if s[2] == 48 && s.len() > 3 {
        // A leading zero is not canonical.
        proof {
            assert forall|item: SectionItem| s@ != #[trigger] item_encoded(item) by {
                match item {
                    SectionItem::SubsectionRef(k) => {
                        lemma_dec_digits(k as nat);
                        if digits == dec_digits(k as nat) {
                            assert(digits[0] == 48 && digits.len() > 1);
                        }
                    },
                    _ => {},
                }
            }
        }
        return None;
    }
    let mut val: usize = 0;
    let mut i: usize = 2;
    while i < s.len()
        invariant
            2 <= i <= s@.len(),
            s@.len() > 2,
            s@[0] == 115,
            s@[1] == 58,
            digits == s@.skip(2),
            all_digits(digits.take(i - 2)),
            val == parse_dec(digits.take(i - 2)),
        decreases s.len() - i,
    {
        let b = s[i];
        if b < 48 || b > 57 {
            proof {
                assert forall|item: SectionItem| s@ != #[trigger] item_encoded(item) by {
                    match item {
                        SectionItem::SubsectionRef(k) => {
                            lemma_dec_digits(k as nat);
                            if s@ == item_encoded(item) {
                                assert(digits =~= dec_digits(k as nat));
                                assert(48 <= digits[i - 2] <= 57);
                                assert(digits[i - 2] == b);
                                assert(false);
                            }
                        },
                        SectionItem::Text(_) => {
                            assert(item_encoded(item)[0] == 116);
                        },
                    }
                }
            }
            return None;
        }
        let d = b - 48;
        // Overflow guard: the index must fit a `usize`.
        let limit = (usize::MAX - (d as usize)) / 10;
        proof {
            lemma_fundamental_div_mod(usize::MAX as int - d as int, 10);
        }
        if val > limit {
            proof {
                lemma_mul_inequality(limit as int + 1, val as int, 10);
                assert(val * 10 + d > usize::MAX);
                assert forall|item: SectionItem| s@ != #[trigger] item_encoded(item) by {
                    match item {
                        SectionItem::SubsectionRef(k) => {
                            lemma_dec_digits(k as nat);
                            if s@ == item_encoded(item) {
                                assert(digits =~= dec_digits(k as nat));
                                lemma_parse_prefix_overflow(digits, i - 2 + 1);
                                assert(parse_dec(digits) == k);
                                assert(parse_dec(digits.take(i - 2 + 1)) <= parse_dec(digits));
                                assert(parse_dec(digits.take(i - 2 + 1)) == val * 10 + d) by {
                                    assert(digits.take(i - 2 + 1).drop_last() =~= digits.take(
                                        i - 2,
                                    ));
                                    assert(digits.take(i - 2 + 1).last() == b);
                                }
                                assert(false);
                            }
                        },
                        SectionItem::Text(_) => {
                            assert(item_encoded(item)[0] == 116);
                        },
                    }
                }
            }
            return None;
        }
        proof {
            lemma_mul_inequality(val as int, limit as int, 10);
            assert(digits.take(i - 2 + 1).drop_last() =~= digits.take(i - 2));
            assert(digits.take(i - 2 + 1).last() == b);
            assert(all_digits(digits.take(i - 2 + 1)));
        }
        val = val * 10 + (d as usize);
        i = i + 1;
    }
    proof {
        assert(digits.take(digits.len() as int) =~= digits);
        assert(canonical_decimal(digits)) by {
            assert(digits[0] == s@[2]);
            if digits.len() > 1 {
                assert(digits[0] != 48);
            }
        }
        lemma_canonical_digits(digits);
    }
    let item = SectionItem::SubsectionRef(val);
    proof {
        assert(s@ =~= item_encoded(item));
    }
    Some(item)
}

/// Prefixes of a digit string never denote more than the whole.
proof fn lemma_parse_prefix_overflow(s: Seq<u8>, i: int)
    requires
        all_digits(s),
        0 <= i <= s.len(),
    ensures
        parse_dec(s.take(i)) <= parse_dec(s),
    decreases s.len() - i,
{
    assert(forall|j: int| 0 <= j <= s.len() ==> all_digits(s.take(j))) by {
        assert(forall|j: int, m: int|
            0 <= m < j <= s.len() ==> #[trigger] s.take(j)[m] == s[m]);
    }
    if i == s.len() {
        assert(s.take(i) =~= s);
    } else {
        lemma_parse_prefix_overflow(s, i + 1);
        let t = s.take(i + 1);
        assert(t.drop_last() =~= s.take(i));
        lemma_parse_nonneg(s.take(i));
        assert(parse_dec(t) == parse_dec(s.take(i)) * 10 + (s[i] - 48));
        assert(parse_dec(s.take(i)) <= parse_dec(t)) by (nonlinear_arith)
            requires
                parse_dec(s.take(i)) >= 0,
                parse_dec(t) == parse_dec(s.take(i)) * 10 + (s[i] - 48),
                48 <= s[i] <= 57,
        ;
    }
}

/// A section of the menu tree: a title, an optional description, its
/// child sections, its items, the selected item, and an attribute set.
pub struct Section {
    pub title: Vec<u8>,
    pub description: Option<Vec<u8>>,
    pub subsections: Vec<Section>,
    pub items: Vec<SectionItem>,
    pub selected_item: usize,
    pub attrs: AttributeSet,
}

impl Section {
    /// Well-formed: every subsection reference stays inside the
    /// subsection list, the selected item exists when any item does, and
    /// the same holds below.
    pub open spec fn wf(&self) -> bool
        decreases *self,
    {
        &&& forall|i: int|
            0 <= i < self.items@.len() ==> ((#[trigger] self.items@[i]) matches
                SectionItem::SubsectionRef(k) ==> k < self.subsections@.len())
        &&& (self.items@.len() > 0 ==> self.selected_item < self.items@.len())
        &&& forall|i: int|
            0 <= i < self.subsections@.len() ==> (#[trigger] self.subsections@[i]).wf()
    }

    /// A leaf section with a title only.
    pub fn leaf(title: Vec<u8>) -> (r: Self)
        ensures
            r.wf(),
            r.title == title,
            r.subsections@.len() == 0,
            r.items@.len() == 0,
    {
        Section {
            title,
            description: None,
            subsections: Vec::new(),
            items: Vec::new(),
            selected_item: 0,
            attrs: AttributeSet::new(),
        }
    }

    /// Checks well-formedness of the whole tree under this section.
    pub fn validate(&self) -> (ok: bool)
        ensures
            ok == self.wf(),
        decreases *self,
    {
        let mut i: usize = 0;
        while i < self.items.len()
            invariant
                i <= self.items@.len(),
                forall|j: int|
                    0 <= j < i ==> ((#[trigger] self.items@[j]) matches
                        SectionItem::SubsectionRef(k) ==> k < self.subsections@.len()),
            decreases self.items@.len() - i,
        {
            if let SectionItem::SubsectionRef(k) = &self.items[i] {
                if *k >= self.subsections.len() {
                    return false;
                }
            }
            i = i + 1;
        }
        if self.items.len() > 0 && self.selected_item >= self.items.len() {
            return false;
        }
        let mut j: usize = 0;
        while j < self.subsections.len()
            invariant
                j <= self.subsections@.len(),
                forall|m: int| 0 <= m < j ==> (#[trigger] self.subsections@[m]).wf(),
                forall|i2: int|
                    0 <= i2 < self.items@.len() ==> ((#[trigger] self.items@[i2]) matches
                        SectionItem::SubsectionRef(k) ==> k < self.subsections@.len()),
                self.items@.len() > 0 ==> self.selected_item < self.items@.len(),
            decreases self.subsections@.len() - j,
        {
            if !self.subsections[j].validate() {
                return false;
            }
            j = j + 1;
        }
        true
    }
}

/// What a section item stands for once resolved: its literal text, or
/// the subsection it references.
pub enum ResolvedItem<'a> {
    Text(&'a Vec<u8>),
    Subsection(&'a Section),
}

impl Section {
    /// Resolves the `i`-th item: literal text comes back as is, and a
    /// subsection reference comes back as the referenced subsection
    /// itself. Well-formedness keeps every reference inside the list, so
    /// resolution never fails.
    pub fn resolve_item<'a>(&'a self, i: usize) -> (r: ResolvedItem<'a>)
        requires
            self.wf(),
            i < self.items@.len(),
        ensures
            (self.items@[i as int] matches SectionItem::Text(t) ==> r matches
                ResolvedItem::Text(rt) && rt == t),
            (self.items@[i as int] matches SectionItem::SubsectionRef(k) ==> r matches
                ResolvedItem::Subsection(sec) && sec == self.subsections@[k as int]),
    {
        match &self.items[i] {
            SectionItem::Text(t) => ResolvedItem::Text(t),
            SectionItem::SubsectionRef(k) => {
                assert(self.items@[i as int] matches SectionItem::SubsectionRef(k0)
                    && k0 < self.subsections@.len());
                ResolvedItem::Subsection(&self.subsections[*k])
            },
        }
    }
}

/// The menu for one frame: an open-ended kind tag, the top-level
/// sections, the selected section, and an attribute set.
pub struct MenuState {
    pub kind: Vec<u8>,
    pub sections: Vec<Section>,
    pub selected_section: usize,
    pub attrs: AttributeSet,
}

impl MenuState {
    /// Well-formed: every section is, and the selected section exists
    /// when any does.
    pub open spec fn wf(&self) -> bool {
        &&& forall|i: int| 0 <= i < self.sections@.len() ==> (#[trigger] self.sections@[i]).wf()
        &&& (self.sections@.len() > 0 ==> self.selected_section < self.sections@.len())
    }

    /// Checks well-formedness of the whole menu.
    pub fn validate(&self) -> (ok: bool)
        ensures
            ok == self.wf(),
    {
        let mut i: usize = 0;
        while i < self.sections.len()
            invariant
                i <= self.sections@.len(),
                forall|j: int| 0 <= j < i ==> (#[trigger] self.sections@[j]).wf(),
            decreases self.sections@.len() - i,
        {
            if !self.sections[i].validate() {
                return false;
            }
            i = i + 1;
        }
        if self.sections.len() > 0 && self.selected_section >= self.sections.len() {
            return false;
        }
        true
    }
}

/// A summary panel: what it describes, its kind, its section titles, the
/// selected one, and an attribute set. The target is an attribute such as
/// `actor:primary` or `terrain:(24,13)`.
pub struct Summary {
    pub target: Attribute,
    pub kind: Vec<u8>,
    pub sections: Vec<Vec<u8>>,
    pub selected_section: usize,
    pub attrs: AttributeSet,
}

} // verus!
