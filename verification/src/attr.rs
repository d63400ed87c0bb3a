//! The attribute annotation scheme.
//!
//! An attribute is written on the wire as a colon-delimited byte string of
//! the form `name:value[:value...]`: the first field names the attribute,
//! the remaining fields are its arguments. Attributes are the protocol's
//! sole extension surface, so their names are not enumerable statically.
//! An [`AttributeSet`] maps attribute names to attributes; its keys are
//! unique and insertion order carries no meaning.

use vstd::prelude::*;

verus! {

/// The field separator of the wire form: the colon.
pub const SEP: u8 = 58;

/// A field is clean when it holds no separator byte, so that it crosses
/// an encode/decode pair intact.
pub open spec fn clean(f: Seq<u8>) -> bool {
    forall|i: int| 0 <= i < f.len() ==> f[i] != SEP
}

/// Every field of `fs` is clean.
pub open spec fn all_clean(fs: Seq<Seq<u8>>) -> bool {
    forall|i: int| 0 <= i < fs.len() ==> clean(#[trigger] fs[i])
}

/// The wire form of an attribute: the name, then each argument preceded
/// by a separator.
pub open spec fn encoded(name: Seq<u8>, args: Seq<Seq<u8>>) -> Seq<u8>
    decreases args.len(),
{
    if args.len() == 0 {
        name
    } else {
        encoded(name, args.drop_last()) + seq![SEP] + args.last()
    }
}

/// The position of the last separator byte in `s`, or -1 when `s` holds none.
pub open spec fn last_sep(s: Seq<u8>) -> int
    decreases s.len(),
{
    if s.len() == 0 {
        -1
    } else if s[s.len() - 1] == SEP {
        s.len() - 1
    } else {
        last_sep(s.drop_last())
    }
}

pub proof fn lemma_last_sep_bounds(s: Seq<u8>)
    ensures
        -1 <= last_sep(s) < s.len(),
        last_sep(s) >= 0 ==> s[last_sep(s)] == SEP,
        forall|j: int| last_sep(s) < j < s.len() ==> s[j] != SEP,
    decreases s.len(),
{
    if s.len() == 0 {
    } else if s[s.len() - 1] == SEP {
    } else {
        lemma_last_sep_bounds(s.drop_last());
        assert(forall|j: int| 0 <= j < s.len() - 1 ==> s.drop_last()[j] == s[j]);
    }
}

/// The fields of `s`, read as separator-delimited segments. A string with
/// no separator is one field; otherwise the segment after the last
/// separator is the last field.
pub open spec fn split(s: Seq<u8>) -> Seq<Seq<u8>>
    decreases s.len(),
    via split_decreases
{
    let i = last_sep(s);
    if i < 0 {
        seq![s]
    } else {
        split(s.take(i)) + seq![s.skip(i + 1)]
    }
}

#[via_fn]
proof fn split_decreases(s: Seq<u8>) {
    lemma_last_sep_bounds(s);
}

/// A clean string splits into the single field it is.
pub proof fn lemma_split_clean(s: Seq<u8>)
    requires
        clean(s),
    ensures
        split(s) == seq![s],
{
    lemma_last_sep_bounds(s);
}

/// Appending a separator and a clean field moves the last separator to the
/// junction.
proof fn lemma_last_sep_append(p: Seq<u8>, a: Seq<u8>)
    requires
        clean(a),
    ensures
        last_sep(p + seq![SEP] + a) == p.len(),
    decreases a.len(),
{
    let w = p + seq![SEP] + a;
    if a.len() == 0 {
        assert(w[w.len() - 1] == SEP);
    } else {
        assert(w[w.len() - 1] == a[a.len() - 1]);
        assert(a[a.len() - 1] != SEP);
        assert(w.drop_last() =~= p + seq![SEP] + a.drop_last());
        lemma_last_sep_append(p, a.drop_last());
    }
}

/// Splitting an encoded attribute recovers the name and the arguments:
/// the round trip of the wire form. Holds whenever every field is clean,
/// which the well-formed attribute types guarantee.
pub proof fn lemma_split_encoded(name: Seq<u8>, args: Seq<Seq<u8>>)
    requires
        clean(name),
        all_clean(args),
    ensures
        split(encoded(name, args)) == seq![name] + args,
    decreases args.len(),
{
    if args.len() == 0 {
        lemma_split_clean(name);
        assert(split(encoded(name, args)) =~~= seq![name] + args);
    } else {
        let prev = encoded(name, args.drop_last());
        let e = encoded(name, args);
        assert(e == prev + seq![SEP] + args.last());
        assert(clean(args.last()));
        lemma_last_sep_append(prev, args.last());
        assert(e.take(prev.len() as int) =~= prev);
        assert(e.skip(prev.len() as int + 1) =~= args.last());
        assert(all_clean(args.drop_last())) by {
            assert(forall|i: int|
                0 <= i < args.len() - 1 ==> args.drop_last()[i] == args[i]);
        }
        lemma_split_encoded(name, args.drop_last());
        assert(split(e) =~~= seq![name] + args);
    }
}

/// Every field that a split yields is clean: separators never survive
/// into fields.
pub proof fn lemma_split_all_clean(s: Seq<u8>)
    ensures
        all_clean(split(s)),
        split(s).len() >= 1,
    decreases s.len(),
{
    lemma_last_sep_bounds(s);
    let i = last_sep(s);
    if i < 0 {
        assert(clean(s));
    } else {
        lemma_split_all_clean(s.take(i));
        assert(clean(s.skip(i + 1))) by {
            assert(forall|j: int| 0 <= j < s.len() - i - 1 ==> #[trigger] s.skip(i + 1)[j] == s[j + i + 1]);
        }
        assert(forall|k: int|
            0 <= k < split(s).len() - 1 ==> split(s)[k] == split(s.take(i))[k]);
    }
}

/// The round trip of a well-formed attribute: decoding its wire form
/// yields the same name and the same ordered argument list.
pub proof fn lemma_attribute_round_trip(a: Attribute)
    requires
        a.wf(),
    ensures
        split(encoded(a.name@, a.args.deep_view())) == seq![a.name@] + a.args.deep_view(),
{
    lemma_split_encoded(a.name@, a.args.deep_view());
}

/// Fields drawn from a split are clean.
proof fn lemma_fields_of_split(s: Seq<u8>, name: Seq<u8>, args: Seq<Seq<u8>>)
    requires
        seq![name] + args == split(s),
    ensures
        clean(name),
        all_clean(args),
{
    lemma_split_all_clean(s);
    assert(split(s)[0] == name);
    assert(forall|k: int| 0 <= k < args.len() ==> #[trigger] args[k] == split(s)[k + 1]);
}

/// How one more byte extends a split: a separator closes the last field
/// and opens an empty one; any other byte grows the last field.
proof fn lemma_split_step(s: Seq<u8>, i: int)
    requires
        0 <= i < s.len(),
    ensures
        s[i] == SEP ==> split(s.take(i + 1)) == split(s.take(i)) + seq![Seq::<u8>::empty()],
        s[i] != SEP ==> split(s.take(i + 1)) == split(s.take(i)).drop_last()
            + seq![split(s.take(i)).last().push(s[i])],
{
    let p = s.take(i);
    let q = s.take(i + 1);
    assert(q.drop_last() =~= p);
    assert(q[q.len() - 1] == s[i]);
    if s[i] == SEP {
        assert(last_sep(q) == i);
        assert(q.take(i) =~= p);
        assert(q.skip(i + 1) =~= Seq::<u8>::empty());
        assert(split(q) =~~= split(p) + seq![Seq::<u8>::empty()]);
    } else {
        assert(last_sep(q) == last_sep(p));
        lemma_last_sep_bounds(p);
        let ls = last_sep(p);
        if ls < 0 {
            assert(split(p) == seq![p]);
            assert(split(q) == seq![q]);
            assert(q =~= p.push(s[i]));
            assert(split(q) =~~= split(p).drop_last() + seq![split(p).last().push(s[i])]);
        } else {
            assert(q.take(ls) =~= p.take(ls));
            assert(q.skip(ls + 1) =~= p.skip(ls + 1).push(s[i]));
            assert(split(q) =~~= split(p).drop_last() + seq![split(p).last().push(s[i])]);
        }
    }
}

/// Appends the bytes of `src` to `dst`.
pub(crate) fn push_bytes(dst: &mut Vec<u8>, src: &Vec<u8>)
    ensures
        final(dst)@ == old(dst)@ + src@,
{
    let ghost init = dst@;
    let mut j: usize = 0;
    while j < src.len()
        invariant
            j <= src.len(),
            dst@ == init + src@.take(j as int),
        decreases src.len() - j,
    {
        dst.push(src[j]);
        assert(init + src@.take(j + 1) =~= (init + src@.take(j as int)).push(src@[j as int]));
        j = j + 1;
    }
    assert(src@.take(src@.len() as int) =~= src@);
}

/// The deep view of a list of byte strings agrees, element by element,
/// with the views of its elements.
pub(crate) proof fn lemma_deep_elems(v: &Vec<Vec<u8>>)
    ensures
        v.deep_view().len() == v@.len(),
        forall|i: int| 0 <= i < v@.len() ==> #[trigger] v.deep_view()[i] == v@[i]@,
{
    assert forall|i: int| 0 <= i < v@.len() implies #[trigger] v.deep_view()[i] == v@[i]@ by {
        assert(v@[i].deep_view() =~= v@[i]@);
    }
}

/// An owned copy of a byte string.
pub fn copy_bytes(src: &Vec<u8>) -> (r: Vec<u8>)
    ensures
        r@ == src@,
{
    let mut r: Vec<u8> = Vec::new();
    push_bytes(&mut r, src);
    assert(r@ =~= src@);
    r
}

/// Compares two byte strings.
pub(crate) fn bytes_eq(a: &Vec<u8>, b: &Vec<u8>) -> (r: bool)
    ensures
        r == (a@ == b@),
{
    if a.len() != b.len() {
        return false;
    }
    let mut j: usize = 0;
    while j < a.len()
        invariant
            j <= a.len(),
            a@.len() == b@.len(),
            forall|i: int| 0 <= i < j ==> a@[i] == b@[i],
        decreases a.len() - j,
    {
        if a[j] != b[j] {
            return false;
        }
        j = j + 1;
    }
    assert(a@ =~= b@);
    true
}

/// An attribute: a name and its ordered arguments. Its wire form is the
/// colon-delimited string `name:value[:value...]`.
pub struct Attribute {
    pub name: Vec<u8>,
    pub args: Vec<Vec<u8>>,
}

impl Attribute {
    /// Well-formed: no field holds a separator, so the wire form parses
    /// back to the same fields.
    pub open spec fn wf(&self) -> bool {
        clean(self.name@) && all_clean(self.args.deep_view())
    }

    pub fn new(name: Vec<u8>, args: Vec<Vec<u8>>) -> (r: Self)
        ensures
            r.name == name,
            r.args == args,
    {
        Attribute { name, args }
    }

    /// The wire form of this attribute.
    pub fn encode(&self) -> (r: Vec<u8>)
        ensures
            r@ == encoded(self.name@, self.args.deep_view()),
    {
        let ghost dv = self.args.deep_view();
        let mut r: Vec<u8> = Vec::new();
        push_bytes(&mut r, &self.name);
        assert(r@ =~= encoded(self.name@, dv.take(0)));
        let mut i: usize = 0;
        while i < self.args.len()
            invariant
                i <= self.args.len(),
                dv == self.args.deep_view(),
                dv.len() == self.args.len(),
                r@ == encoded(self.name@, dv.take(i as int)),
            decreases self.args.len() - i,
        {
            r.push(SEP);
            push_bytes(&mut r, &self.args[i]);
            proof {
                let t = dv.take(i + 1);
                assert(t.drop_last() =~= dv.take(i as int));
                assert(t.last() == dv[i as int]);
                assert(self.args[i as int]@ == dv[i as int]);
                assert(r@ == encoded(self.name@, dv.take(i as int)) + seq![SEP] + dv[i as int]);
                assert(encoded(self.name@, t) == encoded(self.name@, t.drop_last()) + seq![SEP] + t.last());
            }
            i = i + 1;
        }
        assert(dv.take(dv.len() as int) =~= dv);
        r
    }

    /// Reads an attribute back from its wire form: the fields of `s`,
    /// the first as the name, the rest as the arguments. Always succeeds;
    /// a string with no separator is a bare name.
    pub fn decode(s: &Vec<u8>) -> (r: Attribute)
        ensures
            seq![r.name@] + r.args.deep_view() == split(s@),
            r.wf(),
    {
        let mut fields: Vec<Vec<u8>> = Vec::new();
        let mut cur: Vec<u8> = Vec::new();
        let mut i: usize = 0;
        proof {
            assert(s@.take(0) =~= Seq::<u8>::empty());
            assert(fields.deep_view() + seq![cur@] =~~= split(s@.take(0)));
        }
        while i < s.len()
            invariant
                i <= s.len(),
                fields.deep_view() + seq![cur@] == split(s@.take(i as int)),
            decreases s.len() - i,
        {
            proof {
                lemma_split_step(s@, i as int);
            }
            let ghost old_fields = fields.deep_view();
            let ghost old_cur = cur@;
            if s[i] == SEP {
                fields.push(cur);
                cur = Vec::new();
                proof {
                    assert(fields.deep_view() =~~= old_fields.push(old_cur));
                    assert(fields.deep_view() + seq![cur@]
                        =~~= (old_fields + seq![old_cur]) + seq![Seq::<u8>::empty()]);
                }
            } else {
                cur.push(s[i]);
                proof {
                    let prev = split(s@.take(i as int));
                    assert(prev.drop_last() =~~= old_fields);
                    assert(prev.last() == old_cur);
                    assert(fields.deep_view() + seq![cur@]
                        =~~= prev.drop_last() + seq![prev.last().push(s@[i as int])]);
                }
            }
            i = i + 1;
        }
        proof {
            assert(s@.take(s@.len() as int) =~= s@);
            lemma_split_all_clean(s@);
        }
        if fields.len() == 0 {
            let r = Attribute { name: cur, args: fields };
            proof {
                assert(seq![r.name@] + r.args.deep_view() =~~= split(s@));
                lemma_fields_of_split(s@, r.name@, r.args.deep_view());
            }
            r
        } else {
            let ghost whole = fields.deep_view() + seq![cur@];
            let name = fields.remove(0);
            proof {
                assert(fields.deep_view() =~~= whole.drop_last().drop_first());
            }
            let mut args = fields;
            args.push(cur);
            let r = Attribute { name, args };
            proof {
                assert(r.args.deep_view() =~~= whole.drop_last().drop_first().push(cur@));
                assert(seq![r.name@] + r.args.deep_view() =~~= split(s@));
                lemma_fields_of_split(s@, r.name@, r.args.deep_view());
            }
            r
        }
    }
}

/// The spec-level contents of a run of entries: a map from attribute name
/// to argument list, later entries winning.
pub open spec fn map_of(entries: Seq<Attribute>) -> Map<Seq<u8>, Seq<Seq<u8>>>
    decreases entries.len(),
{
    if entries.len() == 0 {
        Map::empty()
    } else {
        map_of(entries.drop_last()).insert(
            entries.last().name@,
            entries.last().args.deep_view(),
        )
    }
}

/// No two entries share a name.
spec fn unique_names(entries: Seq<Attribute>) -> bool {
    forall|i: int, j: int|
        0 <= i < j < entries.len() ==> entries[i].name@ != entries[j].name@
}

/// With unique names, the map of a run of entries holds exactly the
/// entries' names, each bound to that entry's arguments.
proof fn lemma_map_of(entries: Seq<Attribute>)
    requires
        unique_names(entries),
    ensures
        forall|k: Seq<u8>|
            #[trigger] map_of(entries).contains_key(k)
                ==> exists|i: int| 0 <= i < entries.len() && #[trigger] entries[i].name@ == k,
        forall|i: int|
            0 <= i < entries.len() ==> map_of(entries).contains_key(#[trigger] entries[i].name@),
        forall|i: int|
            0 <= i < entries.len()
                ==> map_of(entries)[#[trigger] entries[i].name@] == entries[i].args.deep_view(),
        map_of(entries).dom().finite(),
        map_of(entries).dom().len() == entries.len(),
    decreases entries.len(),
{
    if entries.len() > 0 {
        let prev = entries.drop_last();
        assert(forall|i: int| 0 <= i < prev.len() ==> prev[i] == entries[i]);
        lemma_map_of(prev);
        assert(!map_of(prev).contains_key(entries.last().name@));
        assert(map_of(entries).dom() =~= map_of(prev).dom().insert(entries.last().name@));
        vstd::set::axiom_set_insert_len(map_of(prev).dom(), entries.last().name@);
    }
}

/// A mapping from attribute name to attribute. Keys are unique within a
/// set; insertion order carries no meaning. Resolving an absent key yields
/// the defined not-found value, `None`.
pub struct AttributeSet {
    entries: Vec<Attribute>,
}

impl View for AttributeSet {
    type V = Map<Seq<u8>, Seq<Seq<u8>>>;

    closed spec fn view(&self) -> Map<Seq<u8>, Seq<Seq<u8>>> {
        map_of(self.entries@)
    }
}

impl AttributeSet {
    #[verifier::type_invariant]
    spec fn inv(&self) -> bool {
        unique_names(self.entries@)
    }

    /// The empty set.
    pub fn new() -> (r: Self)
        ensures
            r@ == Map::<Seq<u8>, Seq<Seq<u8>>>::empty(),
    {
        AttributeSet { entries: Vec::new() }
    }

    /// How many attributes the set holds.
    pub fn len(&self) -> (n: usize)
        ensures
            n == self@.dom().len(),
    {
        proof {
            use_type_invariant(self);
            lemma_map_of(self.entries@);
        }
        self.entries.len()
    }

    /// The `i`-th stored attribute, for walking the whole set. Which
    /// attribute stands at which index carries no meaning; each one is
    /// bound to its own name in the map.
    pub fn entry_at(&self, i: usize) -> (a: &Attribute)
        requires
            i < self@.dom().len(),
        ensures
            self@.contains_key(a.name@),
            self@[a.name@] == a.args.deep_view(),
    {
        proof {
            use_type_invariant(self);
            lemma_map_of(self.entries@);
        }
        &self.entries[i]
    }

    /// Looks the attribute named `key` up: the exact stored attribute when
    /// the key is present, the not-found value `None` otherwise.
    pub fn resolve(&self, key: &Vec<u8>) -> (r: Option<&Attribute>)
        ensures
            match r {
                Some(a) => self@.contains_key(key@) && a.name@ == key@
                    && a.args.deep_view() == self@[key@],
                None => !self@.contains_key(key@),
            },
    {
        let mut i: usize = 0;
        while i < self.entries.len()
            invariant
                i <= self.entries.len(),
                forall|j: int| 0 <= j < i ==> #[trigger] self.entries@[j].name@ != key@,
            decreases self.entries.len() - i,
        {
            if bytes_eq(&self.entries[i].name, key) {
                proof {
                    use_type_invariant(self);
                    lemma_map_of(self.entries@);
                }
                return Some(&self.entries[i]);
            }
            i = i + 1;
        }
        proof {
            use_type_invariant(self);
            lemma_map_of(self.entries@);
        }
        None
    }

    /// Binds `attr.name` to `attr`, replacing any earlier attribute of
    /// that name.
    pub fn insert(&mut self, attr: Attribute)
        ensures
            final(self)@ == old(self)@.insert(attr.name@, attr.args.deep_view()),
    {
        proof {
            use_type_invariant(&*self);
        }
        let ghost orig = self.entries@;
        let mut es: Vec<Attribute> = Vec::new();
        core::mem::swap(&mut es, &mut self.entries);
        let mut i: usize = 0;
        while i < es.len()
            invariant
                i <= es.len(),
                es@ == orig,
                orig == old(self).entries@,
                self.entries@.len() == 0,
                unique_names(orig),
                forall|j: int| 0 <= j < i ==> #[trigger] orig[j].name@ != attr.name@,
            decreases es.len() - i,
        {
            if bytes_eq(&es[i].name, &attr.name) {
                proof {
                    lemma_map_of_remove(orig, i as int);
                    lemma_map_of(orig);
                }
                es.remove(i);
                es.push(attr);
                proof {
                    let removed = orig.remove(i as int);
                    assert(es@.drop_last() =~= removed);
                    assert(unique_names(es@)) by {
                        assert(forall|j: int|
                            0 <= j < removed.len() ==> #[trigger] removed[j].name@ != attr.name@);
                    }
                    assert(map_of(es@) == map_of(removed).insert(attr.name@, attr.args.deep_view()));
                    assert(map_of(es@) =~= map_of(orig).insert(attr.name@, attr.args.deep_view()));
                }
                self.entries = es;
                return;
            }
            i = i + 1;
        }
        es.push(attr);
        proof {
            assert(es@.drop_last() =~= orig);
            assert(unique_names(es@));
        }
        self.entries = es;
    }
}

/// Removing an entry removes exactly its name from the map and keeps the
/// names unique.
proof fn lemma_map_of_remove(entries: Seq<Attribute>, i: int)
    requires
        unique_names(entries),
        0 <= i < entries.len(),
    ensures
        unique_names(entries.remove(i)),
        forall|j: int|
            0 <= j < entries.len() - 1
                ==> #[trigger] entries.remove(i)[j].name@ != entries[i].name@,
        map_of(entries.remove(i)) == map_of(entries).remove(entries[i].name@),
    decreases entries.len(),
{
    let k = entries[i].name@;
    let rest = entries.remove(i);
    lemma_map_of(entries);
    if i == entries.len() - 1 {
        assert(rest =~= entries.drop_last());
        lemma_map_of(rest);
        assert(!map_of(rest).contains_key(k));
        assert(map_of(rest).remove(k) =~= map_of(rest));
        assert(map_of(entries) == map_of(rest).insert(k, entries[i].args.deep_view()));
        assert(map_of(entries).remove(k) =~= map_of(rest));
    } else {
        let prev = entries.drop_last();
        assert(forall|j: int| 0 <= j < prev.len() ==> prev[j] == entries[j]);
        lemma_map_of_remove(prev, i);
        assert(rest.drop_last() =~= prev.remove(i));
        assert(rest.last() == entries.last());
        assert(map_of(rest) == map_of(prev.remove(i)).insert(
            entries.last().name@,
            entries.last().args.deep_view(),
        ));
        assert(entries.last().name@ != k);
        assert(map_of(prev).remove(k).insert(
            entries.last().name@,
            entries.last().args.deep_view(),
        ) =~= map_of(prev).insert(
            entries.last().name@,
            entries.last().args.deep_view(),
        ).remove(k));
    }
}

} // verus!
