//! The elements found in plugin libraries, and the decisions made while
//! looking for them.

use vstd::prelude::*;

use crate::keyed::{keyed_view, keys_distinct, lemma_keyed_update};
use crate::plugin::meta::ElementMeta;
use crate::plugin::ElementKind;
use crate::text::{split, split_seq, str_eq, views_of};

verus! {

/// An element found in a plugin library: its metadata, the library's path
/// and the descriptions of its properties, as (property, description) pairs.
#[derive(Debug, Clone)]
pub struct RegisteredElement {
    element_info: ElementMeta,
    lib_path: String,
    properties: Vec<(String, String)>,
}

impl RegisteredElement {
    /// The element's metadata.
    pub closed spec fn info(&self) -> ElementMeta {
        self.element_info
    }

    /// The path of the library that provides the element.
    pub closed spec fn path(&self) -> Seq<char> {
        self.lib_path@
    }

    /// The descriptions of the element's properties.
    pub closed spec fn property_descriptions(&self) -> Seq<(String, String)> {
        self.properties@
    }

    /// An element with the given metadata, library and property
    /// descriptions.
    pub fn new(element_info: ElementMeta, lib_path: &str, properties: Vec<(String, String)>) -> (r:
        Self)
        ensures
            r.info() == element_info,
            r.path() == lib_path@,
            r.property_descriptions() == properties@,
    {
        RegisteredElement { element_info, lib_path: lib_path.to_owned(), properties }
    }

    /// The path of the library that provides the element.
    pub fn get_lib_path(&self) -> (r: &str)
        ensures
            r@ == self.path(),
    {
        self.lib_path.as_str()
    }

    /// The element's name.
    pub fn get_name(&self) -> (r: &str)
        ensures
            r@ == self.info().name@,
    {
        self.element_info.name.as_str()
    }

    /// What part the element plays in a pipeline.
    pub fn get_element_kind(&self) -> (r: ElementKind)
        ensures
            r == self.info().kind,
    {
        self.element_info.kind
    }

    /// The element's metadata.
    pub fn get_info(&self) -> (r: &ElementMeta)
        ensures
            *r == self.info(),
    {
        &self.element_info
    }

    /// The descriptions of the element's properties.
    pub fn get_properties(&self) -> (r: &Vec<(String, String)>)
        ensures
            r@ == self.property_descriptions(),
    {
        &self.properties
    }
}

/// The name an element is found under.
pub open spec fn element_name(e: RegisteredElement) -> Seq<char> {
    e.info().name@
}

/// The elements of `s` by name: where two share a name, the later one.
pub open spec fn db_of(s: Seq<RegisteredElement>) -> Map<Seq<char>, RegisteredElement>
    decreases s.len(),
{
    if s.len() == 0 {
        Map::empty()
    } else {
        db_of(s.drop_last()).insert(element_name(s.last()), s.last())
    }
}

/// The database of a list of elements knows exactly the names that occur
/// in the list.
pub proof fn lemma_db_of_names(s: Seq<RegisteredElement>, k: Seq<char>)
    ensures
        db_of(s).contains_key(k) <==> exists|i: int| 0 <= i < s.len() && element_name(s[i]) == k,
    decreases s.len(),
{
    if s.len() > 0 {
        let init = s.drop_last();
        lemma_db_of_names(init, k);
        if exists|i: int| 0 <= i < init.len() && element_name(init[i]) == k {
            let i = choose|i: int| 0 <= i < init.len() && element_name(init[i]) == k;
            assert(s[i] == init[i]);
        }
        if exists|i: int| 0 <= i < s.len() && element_name(s[i]) == k {
            let i = choose|i: int| 0 <= i < s.len() && element_name(s[i]) == k;
            if i < s.len() - 1 {
                assert(s[i] == init[i]);
            }
        }
    }
}

/// Where several elements of a list share a name, the database of the list
/// keeps the last of them.
pub proof fn lemma_db_of_last_wins(s: Seq<RegisteredElement>, i: int)
    requires
        0 <= i < s.len(),
        forall|j: int| i < j < s.len() ==> element_name(#[trigger] s[j]) != element_name(s[i]),
    ensures
        db_of(s).contains_key(element_name(s[i])),
        db_of(s)[element_name(s[i])] == s[i],
    decreases s.len(),
{
    if i < s.len() - 1 {
        let init = s.drop_last();
        assert(init[i] == s[i]);
        assert forall|j: int| i < j < init.len() implies element_name(#[trigger] init[j])
            != element_name(init[i]) by {
            assert(init[j] == s[j]);
        }
        lemma_db_of_last_wins(init, i);
        assert(element_name(s[s.len() - 1]) != element_name(s[i]));
    }
}

/// The name of an element, as a key.
pub open spec fn name_key() -> spec_fn(RegisteredElement) -> Seq<char> {
    |e: RegisteredElement| element_name(e)
}

/// An element as the value it is found as.
pub open spec fn whole_element() -> spec_fn(RegisteredElement) -> RegisteredElement {
    |e: RegisteredElement| e
}

/// The elements of `s` by name, where no two share a name.
pub open spec fn db_view(s: Seq<RegisteredElement>) -> Map<Seq<char>, RegisteredElement> {
    keyed_view(s, name_key(), whole_element())
}

/// No two elements of `s` share a name.
pub open spec fn names_unique(s: Seq<RegisteredElement>) -> bool {
    keys_distinct(s, name_key())
}

/// The registered elements, found by name. No two have the same name.
pub struct ElementDb {
    elements: Vec<RegisteredElement>,
}

impl ElementDb {
    /// The elements of the database by name.
    pub closed spec fn view(&self) -> Map<Seq<char>, RegisteredElement> {
        db_view(self.elements@)
    }

    /// No two elements of the database share a name.
    #[verifier::type_invariant]
    closed spec fn wf(&self) -> bool {
        names_unique(self.elements@)
    }

    /// An empty database.
    pub fn new() -> (r: Self)
        ensures
            r.view() == Map::<Seq<char>, RegisteredElement>::empty(),
    {
        let r = ElementDb { elements: Vec::new() };
        assert(r.view() =~= Map::<Seq<char>, RegisteredElement>::empty());
        r
    }

    /// The position of the element called `name` in `elements`, if there
    /// is one.
    fn position(elements: &Vec<RegisteredElement>, name: &str) -> (r: Option<usize>)
        ensures
            match r {
                Some(i) => i < elements@.len() && element_name(elements@[i as int]) == name@,
                None => forall|i: int|
                    0 <= i < elements@.len() ==> element_name(elements@[i]) != name@,
            },
    {
        let mut i: usize = 0;
        while i < elements.len()
            invariant
                i <= elements@.len(),
                forall|m: int| 0 <= m < i ==> element_name(elements@[m]) != name@,
            decreases elements@.len() - i,
        {
            if str_eq(elements[i].get_name(), name) {
                return Some(i);
            }
            i = i + 1;
        }
        None
    }

    /// Adds an element, in place of any element of the same name.
    pub fn insert(&mut self, element: RegisteredElement)
        ensures
            final(self).view() == old(self).view().insert(element_name(element), element),
    {
        proof {
            use_type_invariant(&*self);
        }
        let mut elems = Vec::new();
        std::mem::swap(&mut elems, &mut self.elements);
        let ghost old_elems = elems@;
        let found = Self::position(&elems, element.get_name());
        match found {
            Some(i) => {
                elems.set(i, element);
                proof {
                    lemma_keyed_update(old_elems, elems@, i as int, element, name_key(), whole_element());
                }
            },
            None => {
                elems.push(element);
                proof {
                    lemma_keyed_update(old_elems, elems@, old_elems.len() as int, element, name_key(), whole_element());
                }
            },
        }
        self.elements = elems;
    }

    /// The element called `name`, if there is one.
    pub fn get(&self, name: &str) -> (r: Option<&RegisteredElement>)
        ensures
            match r {
                Some(e) => self.view().contains_key(name@) && *e == self.view()[name@],
                None => !self.view().contains_key(name@),
            },
    {
        proof {
            use_type_invariant(self);
        }
        match Self::position(&self.elements, name) {
            Some(i) => {
                proof {
                    let w = choose|m: int| 0 <= m < self.elements@.len() && element_name(self.elements@[m]) == name@;
                    assert(w == i);
                }
                Some(&self.elements[i])
            },
            None => None,
        }
    }

    /// The elements, each name once.
    pub fn elements(&self) -> (r: &Vec<RegisteredElement>)
        ensures
            names_unique(r@),
            forall|i: int| 0 <= i < r@.len() ==> #[trigger] self.view().contains_key(element_name(r@[i]))
                && self.view()[element_name(r@[i])] == r@[i],
            forall|k: Seq<char>| #[trigger] self.view().contains_key(k) ==> exists|i: int| 0 <= i < r@.len() && element_name(r@[i]) == k,
    {
        proof {
            use_type_invariant(self);
        }
        assert forall|i: int| 0 <= i < self.elements@.len() implies #[trigger] self.view().contains_key(
            element_name(self.elements@[i]),
        ) && self.view()[element_name(self.elements@[i])] == self.elements@[i] by {
            let k = element_name(self.elements@[i]);
            let w = choose|m: int| 0 <= m < self.elements@.len() && element_name(self.elements@[m]) == k;
            assert(w == i);
        }
        &self.elements
    }
}

/// The database of the discovered elements, found by name; where two share
/// a name, the one discovered later.
pub fn element_db(elements: Vec<RegisteredElement>) -> (r: ElementDb)
    ensures
        r.view() == db_of(elements@),
{
    let mut db = ElementDb::new();
    let ghost all = elements@;
    let mut rest = elements;
    let n = rest.len();
    let mut i: usize = 0;
    assert(all.take(0) =~= Seq::<RegisteredElement>::empty());
    assert(db.view() =~= db_of(all.take(0)));
    while i < n
        invariant
            i <= n == all.len(),
            rest@ == all.skip(i as int),
            db.view() == db_of(all.take(i as int)),
        decreases n - i,
    {
        let e = rest.remove(0);
        proof {
            assert(e == all[i as int]);
            assert(rest@ =~= all.skip(i + 1));
            assert(all.take(i + 1).drop_last() =~= all.take(i as int));
        }
        db.insert(e);
        i = i + 1;
    }
    assert(all.take(n as int) =~= all);
    db
}

/// The file extensions of the libraries searched for plugins.
pub open spec fn is_library_extension(ext: Seq<char>) -> bool {
    ext == "dylib"@ || ext == "so"@ || ext == "dll"@
}

/// Whether a file with this extension is searched for plugins.
pub fn is_plugin_extension(ext: &str) -> (r: bool)
    ensures
        r == is_library_extension(ext@),
{
    str_eq(ext, "dylib") || str_eq(ext, "so") || str_eq(ext, "dll")
}

/// Whether a plugin built as `plugin_abi` can be loaded by a loader built
/// as `loader_abi`: plugins written in C declare the ABI `C` and are always
/// accepted; other plugins must have been built exactly as the loader.
pub fn abi_compatible(plugin_abi: &str, loader_abi: &str) -> (r: bool)
    ensures
        r == (plugin_abi@ == "C"@ || plugin_abi@ == loader_abi@),
{
    str_eq(plugin_abi, "C") || str_eq(plugin_abi, loader_abi)
}

/// The element names that a plugin registers, from the comma-separated
/// list it gives.
pub fn plugin_element_names(list: &str) -> (r: Vec<String>)
    ensures
        views_of(r@) == split_seq(list@, ','),
{
    split(list, ',')
}

/// The extra directories to search for plugins, from the colon-separated
/// list of the `PHYSIM_PLUGIN_DIR` variable.
pub fn plugin_search_dirs(list: &str) -> (r: Vec<String>)
    ensures
        views_of(r@) == split_seq(list@, ':'),
{
    split(list, ':')
}

} // verus!
