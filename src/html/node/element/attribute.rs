use vstd::prelude::*;

use crate::html::node::element::keys::{
    compare_keys, key_less, lemma_key_cmp_antisym, lemma_key_cmp_zero, lemma_key_less_trans,
};

verus! {

/// What an attribute set holds: classes in order, an optional identifier, and
/// data attributes as (key, value) entries, which a well-formed set keeps in
/// strictly increasing key order.
pub ghost struct AttrView {
    pub class: Seq<Seq<char>>,
    pub id: Option<Seq<char>>,
    pub data: Seq<(Seq<char>, Seq<char>)>,
}

/// Presentation metadata of an element.
pub struct AttributeBase {
    class: Vec<String>,
    id: Option<String>,
    data: Vec<(String, String)>,
}

pub open spec fn opt_view(o: Option<String>) -> Option<Seq<char>> {
    match o {
        Some(s) => Some(s@),
        None => None,
    }
}

impl View for AttributeBase {
    type V = AttrView;

    closed spec fn view(&self) -> AttrView {
        AttrView {
            class: self.class@.map_values(|s: String| s@),
            id: opt_view(self.id),
            data: self.data@.map_values(|e: (String, String)| (e.0@, e.1@)),
        }
    }
}

/// The class list as rendered: each class followed by one space.
pub open spec fn class_list_markup(class: Seq<Seq<char>>) -> Seq<char>
    decreases class.len(),
{
    if class.len() == 0 {
        Seq::empty()
    } else {
        class_list_markup(class.drop_last()) + class.last() + " "@
    }
}

/// The data attributes as rendered, in entry order.
pub open spec fn data_markup(data: Seq<(Seq<char>, Seq<char>)>) -> Seq<char>
    decreases data.len(),
{
    if data.len() == 0 {
        Seq::empty()
    } else {
        data_markup(data.drop_last()) + " data-"@ + data.last().0 + "=\""@ + data.last().1 + "\""@
    }
}

pub open spec fn class_markup(class: Seq<Seq<char>>) -> Seq<char> {
    if class.len() == 0 {
        Seq::empty()
    } else {
        " class=\""@ + class_list_markup(class) + "\""@
    }
}

pub open spec fn id_markup(id: Option<Seq<char>>) -> Seq<char> {
    match id {
        Some(v) => " id=\""@ + v + "\""@,
        None => Seq::empty(),
    }
}

/// The rendering of an attribute set: classes, then the identifier, then the
/// data attributes.
pub open spec fn attr_markup(a: AttrView) -> Seq<char> {
    class_markup(a.class) + id_markup(a.id) + data_markup(a.data)
}

/// Data entries in strictly increasing key order.
pub open spec fn keys_sorted(data: Seq<(Seq<char>, Seq<char>)>) -> bool {
    forall|i: int, j: int| 0 <= i < j < data.len() ==> key_less(#[trigger] data[i].0, #[trigger] data[j].0)
}

/// The value stored for `key`, if any.
pub open spec fn lookup(data: Seq<(Seq<char>, Seq<char>)>, key: Seq<char>) -> Option<Seq<char>>
    decreases data.len(),
{
    if data.len() == 0 {
        None
    } else if data[0].0 == key {
        Some(data[0].1)
    } else {
        lookup(data.drop_first(), key)
    }
}

/// The entries after `key` is set to `value`: an entry for `key` keeps its
/// place and takes the new value; otherwise a new entry goes before the
/// first greater key.
pub open spec fn upsert(data: Seq<(Seq<char>, Seq<char>)>, key: Seq<char>, value: Seq<char>) -> Seq<
    (Seq<char>, Seq<char>),
>
    decreases data.len(),
{
    if data.len() == 0 {
        seq![(key, value)]
    } else if data[0].0 == key {
        data.update(0, (key, value))
    } else if key_less(data[0].0, key) {
        seq![data[0]] + upsert(data.drop_first(), key, value)
    } else {
        seq![(key, value)] + data
    }
}

proof fn lemma_lookup_found(data: Seq<(Seq<char>, Seq<char>)>, key: Seq<char>)
    ensures
        lookup(data, key) is Some ==> exists|j: int| 0 <= j < data.len() && #[trigger] data[j].0 == key,
    decreases data.len(),
{
    if data.len() > 0 && data[0].0 != key {
        lemma_lookup_found(data.drop_first(), key);
        if lookup(data, key) is Some {
            let j = choose|j: int| 0 <= j < data.drop_first().len() && #[trigger] data.drop_first()[j].0 == key;
            assert(data[j + 1].0 == key);
        }
    }
}

/// Two key-sorted entry sequences that store the same value for every key
/// are the same sequence.
pub proof fn lemma_sorted_unique(s1: Seq<(Seq<char>, Seq<char>)>, s2: Seq<(Seq<char>, Seq<char>)>)
    requires
        keys_sorted(s1),
        keys_sorted(s2),
        forall|k: Seq<char>| #[trigger] lookup(s1, k) == lookup(s2, k),
    ensures
        s1 == s2,
    decreases s1.len(),
{
    if s1.len() == 0 || s2.len() == 0 {
        if s1.len() > 0 {
            assert(lookup(s1, s1[0].0) is Some);
        }
        if s2.len() > 0 {
            assert(lookup(s2, s2[0].0) is Some);
        }
        assert(s1 =~= s2);
    } else {
        let k1 = s1[0].0;
        let k2 = s2[0].0;
        assert(lookup(s1, k1) is Some);
        assert(lookup(s2, k2) is Some);
        lemma_lookup_found(s2, k1);
        lemma_lookup_found(s1, k2);
        if k1 != k2 {
            let j = choose|j: int| 0 <= j < s2.len() && #[trigger] s2[j].0 == k1;
            let i = choose|i: int| 0 <= i < s1.len() && #[trigger] s1[i].0 == k2;
            assert(key_less(s2[0].0, s2[j].0));
            assert(key_less(s1[0].0, s1[i].0));
            lemma_key_cmp_antisym(k1, k2);
        }
        assert(s1[0] == s2[0]);
        let r1 = s1.drop_first();
        let r2 = s2.drop_first();
        assert forall|k: Seq<char>| #[trigger] lookup(r1, k) == lookup(r2, k) by {
            if k == k1 {
                lemma_key_cmp_zero(k1, k1);
                lemma_lookup_found(r1, k);
                lemma_lookup_found(r2, k);
                if lookup(r1, k) is Some {
                    let j = choose|j: int| 0 <= j < r1.len() && #[trigger] r1[j].0 == k;
                    assert(key_less(s1[0].0, s1[j + 1].0));
                }
                if lookup(r2, k) is Some {
                    let j = choose|j: int| 0 <= j < r2.len() && #[trigger] r2[j].0 == k;
                    assert(key_less(s2[0].0, s2[j + 1].0));
                }
            } else {
                assert(lookup(s1, k) == lookup(r1, k));
                assert(lookup(s2, k) == lookup(r2, k));
            }
        }
        assert forall|i: int, j: int| 0 <= i < j < r1.len() implies key_less(#[trigger] r1[i].0, #[trigger] r1[j].0) by {
            assert(key_less(s1[i + 1].0, s1[j + 1].0));
        }
        assert forall|i: int, j: int| 0 <= i < j < r2.len() implies key_less(#[trigger] r2[i].0, #[trigger] r2[j].0) by {
            assert(key_less(s2[i + 1].0, s2[j + 1].0));
        }
        lemma_sorted_unique(r1, r2);
        assert(s1 =~= seq![s1[0]] + r1);
        assert(s2 =~= seq![s2[0]] + r2);
    }
}

/// Attribute sets with the same classes, the same identifier and the same
/// value for every data key render the same, whatever order the data keys
/// were set in.
pub proof fn lemma_attr_markup_by_mapping(a1: AttrView, a2: AttrView)
    requires
        keys_sorted(a1.data),
        keys_sorted(a2.data),
        a1.class == a2.class,
        a1.id == a2.id,
        forall|k: Seq<char>| #[trigger] lookup(a1.data, k) == lookup(a2.data, k),
    ensures
        attr_markup(a1) == attr_markup(a2),
{
    lemma_sorted_unique(a1.data, a2.data);
}

/// Setting a key splits at the first entry whose key is not less than it.
proof fn lemma_upsert_split(d: Seq<(Seq<char>, Seq<char>)>, i: int, key: Seq<char>, value: Seq<char>)
    requires
        0 <= i <= d.len(),
        forall|j: int| 0 <= j < i ==> key_less(#[trigger] d[j].0, key),
    ensures
        upsert(d, key, value) == d.subrange(0, i) + upsert(d.subrange(i, d.len() as int), key, value),
    decreases i,
{
    if i == 0 {
        assert(d.subrange(0, 0) + d.subrange(0, d.len() as int) =~= d);
        assert(d.subrange(0, d.len() as int) =~= d);
    } else {
        assert(key_less(d[0].0, key));
        lemma_key_cmp_zero(d[0].0, key);
        let r = d.drop_first();
        assert forall|j: int| 0 <= j < i - 1 implies key_less(#[trigger] r[j].0, key) by {
            assert(key_less(d[j + 1].0, key));
        }
        lemma_upsert_split(r, i - 1, key, value);
        assert(r.subrange(i - 1, r.len() as int) =~= d.subrange(i, d.len() as int));
        assert(seq![d[0]] + (r.subrange(0, i - 1) + upsert(d.subrange(i, d.len() as int), key, value))
            =~= d.subrange(0, i) + upsert(d.subrange(i, d.len() as int), key, value));
    }
}

impl AttributeBase {
    pub open spec fn wf(&self) -> bool {
        keys_sorted(self@.data)
    }

    /// An empty attribute set.
    pub fn new() -> (r: Self)
        ensures
            r.wf(),
            r@ == (AttrView { class: Seq::empty(), id: None, data: Seq::empty() }),
    {
        let r = AttributeBase { class: Vec::new(), id: None, data: Vec::new() };
        assert(r@.class =~= Seq::empty());
        assert(r@.data =~= Seq::empty());
        r
    }

    /// Appends a class; duplicates are kept.
    pub fn add_class(&mut self, name: String)
        requires
            old(self).wf(),
        ensures
            final(self).wf(),
            final(self)@ == (AttrView { class: old(self)@.class.push(name@), ..old(self)@ }),
    {
        let ghost before = self@;
        self.class.push(name);
        assert(self@.class =~= before.class.push(name@));
        assert(self@.data =~= before.data);
    }

    /// Replaces the identifier.
    pub fn set_id(&mut self, id: String)
        requires
            old(self).wf(),
        ensures
            final(self).wf(),
            final(self)@ == (AttrView { id: Some(id@), ..old(self)@ }),
    {
        let ghost before = self@;
        self.id = Some(id);
        assert(self@.class =~= before.class);
        assert(self@.data =~= before.data);
    }

    /// The index of the first data entry whose key is not less than `key`.
    fn find_slot(&self, key: &String) -> (i: usize)
        ensures
            i <= self@.data.len(),
            forall|j: int| 0 <= j < i ==> key_less(#[trigger] self@.data[j].0, key@),
            i < self@.data.len() ==> !key_less(self@.data[i as int].0, key@),
    {
        let n = self.data.len();
        let mut i: usize = 0;
        while i < n
            invariant
                i <= n,
                n == self.data@.len(),
                forall|j: int| 0 <= j < i ==> key_less(#[trigger] self@.data[j].0, key@),
            decreases n - i,
        {
            let c = compare_keys(self.data[i].0.as_str(), key.as_str());
            if c >= 0 {
                return i;
            }
            i += 1;
        }
        i
    }

    /// Sets the data attribute `key` to `value`.
    pub fn add_data_attr(&mut self, key: String, value: String)
        requires
            old(self).wf(),
        ensures
            final(self).wf(),
            final(self)@ == (AttrView { data: upsert(old(self)@.data, key@, value@), ..old(self)@ }),
    {
        let ghost before = self@;
        let ghost d = before.data;
        let n = self.data.len();
        let i = self.find_slot(&key);
        proof {
            lemma_upsert_split(d, i as int, key@, value@);
        }
        if i < n && self.data[i].0 == key {
            proof {
                let rest = d.subrange(i as int, n as int);
                assert(rest[0] == d[i as int]);
                assert(d.subrange(0, i as int) + rest.update(0, (key@, value@)) =~= d.update(
                    i as int,
                    (key@, value@),
                ));
            }
            self.data.set(i, (key, value));
            proof {
                assert(self@.data =~= d.update(i as int, (key@, value@)));
                assert forall|a: int, b: int| 0 <= a < b < self@.data.len() implies key_less(
                    #[trigger] self@.data[a].0,
                    #[trigger] self@.data[b].0,
                ) by {
                    assert(key_less(d[a].0, d[b].0));
                }
            }
        } else {
            proof {
                let rest = d.subrange(i as int, n as int);
                if i < n {
                    assert(rest[0] == d[i as int]);
                    lemma_key_cmp_zero(d[i as int].0, key@);
                    lemma_key_cmp_antisym(d[i as int].0, key@);
                }
                assert(d.subrange(0, i as int) + (seq![(key@, value@)] + rest) =~= d.insert(
                    i as int,
                    (key@, value@),
                ));
            }
            self.data.insert(i, (key, value));
            proof {
                let nd = self@.data;
                assert(nd =~= d.insert(i as int, (key@, value@)));
                assert forall|a: int, b: int| 0 <= a < b < nd.len() implies key_less(
                    #[trigger] nd[a].0,
                    #[trigger] nd[b].0,
                ) by {
                    if b < i {
                        assert(key_less(d[a].0, d[b].0));
                    } else if b == i {
                        assert(key_less(d[a].0, key@));
                    } else if a == i {
                        assert(nd[b].0 == d[b - 1].0);
                        if b - 1 > i {
                            assert(key_less(d[i as int].0, d[b - 1].0));
                            lemma_key_less_trans(key@, d[i as int].0, d[b - 1].0);
                        }
                    } else if a < i {
                        assert(key_less(d[a].0, d[b - 1].0));
                    } else {
                        assert(key_less(d[a - 1].0, d[b - 1].0));
                    }
                }
            }
        }
        assert(self@.class =~= before.class);
        assert(self@.data =~= upsert(before.data, key@, value@));
    }

    /// The rendering of the set: ` class="..."`, ` id="..."`, then each
    /// ` data-<key>="<value>"` in entry order.
    pub fn render_attr_base(&self) -> (r: String)
        ensures
            r@ == attr_markup(self@),
    {
        let mut res = String::new();
        let ghost a = self@;
        if self.class.len() > 0 {
            res.append(" class=\"");
            let mut i: usize = 0;
            while i < self.class.len()
                invariant
                    a == self@,
                    i <= self.class@.len(),
                    res@ == " class=\""@ + class_list_markup(a.class.subrange(0, i as int)),
                decreases self.class@.len() - i,
            {
                let ghost prev = res@;
                res.append(self.class[i].as_str());
                res.append(" ");
                assert(a.class.subrange(0, i + 1).drop_last() =~= a.class.subrange(0, i as int));
                assert(res@ =~= prev + a.class[i as int] + " "@);
                i += 1;
            }
            res.append("\"");
            assert(a.class.subrange(0, a.class.len() as int) =~= a.class);
        } else {
        }
        let ghost after_class = res@;
        assert(after_class == class_markup(a.class));
        match &self.id {
            Some(v) => {
                res.append(" id=\"");
                res.append(v.as_str());
                res.append("\"");
            },
            None => {},
        }
        assert(res@ =~= class_markup(a.class) + id_markup(a.id));
        let ghost after_id = res@;
        let mut j: usize = 0;
        while j < self.data.len()
            invariant
                a == self@,
                j <= self.data@.len(),
                res@ == after_id + data_markup(a.data.subrange(0, j as int)),
            decreases self.data@.len() - j,
        {
            let ghost prev = res@;
            res.append(" data-");
            res.append(self.data[j].0.as_str());
            res.append("=\"");
            res.append(self.data[j].1.as_str());
            res.append("\"");
            assert(a.data.subrange(0, j + 1).drop_last() =~= a.data.subrange(0, j as int));
            assert(res@ =~= prev + " data-"@ + a.data[j as int].0 + "=\""@ + a.data[j as int].1 + "\""@);
            j += 1;
        }
        assert(a.data.subrange(0, a.data.len() as int) =~= a.data);
        assert(res@ =~= attr_markup(a));
        res
    }
}

impl AttributeBase {
    pub fn get_class(&self) -> (r: &Vec<String>)
        ensures
            r@.map_values(|s: String| s@) == self@.class,
    {
        &self.class
    }

    pub fn get_id(&self) -> (r: &Option<String>)
        ensures
            opt_view(*r) == self@.id,
    {
        &self.id
    }

    /// The value of the data attribute `key`, if it is set.
    pub fn get_data(&self, key: &String) -> (r: Option<&String>)
        requires
            self.wf(),
        ensures
            match r {
                Some(v) => lookup(self@.data, key@) == Some(v@),
                None => lookup(self@.data, key@) is None,
            },
    {
        let ghost d = self@.data;
        let n = self.data.len();
        let mut i: usize = 0;
        assert(d.subrange(0, n as int) =~= d);
        while i < n
            invariant
                i <= n,
                n == self.data@.len(),
                d == self@.data,
                d.len() == n,
                lookup(d, key@) == lookup(d.subrange(i as int, n as int), key@),
            decreases n - i,
        {
            proof {
                assert(d.subrange(i as int, n as int)[0] == d[i as int]);
                assert(d.subrange(i as int, n as int).drop_first() =~= d.subrange(i + 1, n as int));
            }
            if self.data[i].0 == *key {
                return Some(&self.data[i].1);
            }
            i += 1;
        }
        None
    }
}

impl Default for AttributeBase {
    fn default() -> (r: Self)
        ensures
            r.wf(),
            r@ == (AttrView { class: Seq::empty(), id: None, data: Seq::empty() }),
    {
        AttributeBase::new()
    }
}

} // verus!
