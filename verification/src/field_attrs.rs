//! Extraction of the `config_option` attribute that the
//! configuration-schema generator reads off a config struct's fields: its
//! default value, the version since which the option is stable, and a
//! deprecation notice.

use vstd::prelude::*;

verus! {

/// Whether a string is a well-formed semantic version; the name for what
/// `semver::Version::parse` accepts, which depends on the string alone.
pub uninterp spec fn version_parses(s: Seq<char>) -> bool;

/// Relies on semver::Version::parse: whether a version string is valid
/// semver; the outcome is a function of the string alone.
#[verifier::external_body]
fn version_is_valid(s: &str) -> (r: bool)
    ensures
        r == version_parses(s@),
{
    semver::Version::parse(s).is_ok()
}

/// A `name = "value"` pair of an attribute list, viewed mathematically.
pub struct StrPairV {
    pub name: Seq<char>,
    pub value: Seq<char>,
}

/// A `name = "value"` pair with a string literal inside an attribute
/// list.
pub struct StrPair {
    pub name: String,
    pub value: String,
}

impl View for StrPair {
    type V = StrPairV;

    open spec fn view(&self) -> StrPairV {
        StrPairV { name: self.name@, value: self.value@ }
    }
}

impl DeepView for StrPair {
    type V = StrPairV;

    open spec fn deep_view(&self) -> StrPairV {
        self.view()
    }
}

/// The view of one entry of an attribute list.
pub enum MetaEntryV {
    StrValue(Seq<char>, Seq<char>),
    List(Seq<char>, Seq<StrPairV>),
    Other,
}

/// One entry of a `config_option` attribute list, as the extraction reads
/// it: a `name = "value"` pair, a named inner list of such pairs (other
/// shapes inside a list carry nothing the extraction reads), or anything
/// else.  The surrounding tool converts real parsed attributes to this
/// form.
pub enum MetaEntry {
    StrValue(String, String),
    List(String, Vec<StrPair>),
    Other,
}

impl View for MetaEntry {
    type V = MetaEntryV;

    open spec fn view(&self) -> MetaEntryV {
        match self {
            MetaEntry::StrValue(n, v) => MetaEntryV::StrValue(n@, v@),
            MetaEntry::List(n, items) => MetaEntryV::List(n@, items.deep_view()),
            MetaEntry::Other => MetaEntryV::Other,
        }
    }
}

impl DeepView for MetaEntry {
    type V = MetaEntryV;

    open spec fn deep_view(&self) -> MetaEntryV {
        self.view()
    }
}

/// The view of an interpreted field attribute.
pub enum AttrMetaV {
    List(Seq<char>, Seq<MetaEntryV>),
    Other,
}

/// An interpreted attribute of a config struct field: a named list of
/// entries, or any other attribute shape.
pub enum AttrMeta {
    List(String, Vec<MetaEntry>),
    Other,
}

impl View for AttrMeta {
    type V = AttrMetaV;

    open spec fn view(&self) -> AttrMetaV {
        match self {
            AttrMeta::List(n, entries) => AttrMetaV::List(n@, entries.deep_view()),
            AttrMeta::Other => AttrMetaV::Other,
        }
    }
}

impl DeepView for AttrMeta {
    type V = AttrMetaV;

    open spec fn deep_view(&self) -> AttrMetaV {
        self.view()
    }
}

/// The index of the first `config_option` list among the attributes, or
/// the length.
pub open spec fn find_config_option(attrs: Seq<AttrMetaV>, i: int) -> int
    decreases attrs.len() - i when 0 <= i <= attrs.len()
{
    if i >= attrs.len() {
        attrs.len() as int
    } else if (attrs[i] matches AttrMetaV::List(n, _) && n == "config_option"@) {
        i
    } else {
        find_config_option(attrs, i + 1)
    }
}

/// The value of the first `name = "value"` entry with the given name, or
/// nothing.
pub open spec fn find_str_value(entries: Seq<MetaEntryV>, name: Seq<char>, i: int) -> Option<
    Seq<char>,
>
    decreases entries.len() - i when 0 <= i <= entries.len()
{
    if i >= entries.len() {
        None
    } else if (entries[i] matches MetaEntryV::StrValue(n, v) && n == name) {
        match entries[i] {
            MetaEntryV::StrValue(n, v) => Some(v),
            _ => None,
        }
    } else {
        find_str_value(entries, name, i + 1)
    }
}

/// The value of the first pair with the given name whose value the
/// version parser accepts, or nothing; unparseable candidates are passed
/// over.
pub open spec fn find_version_value(pairs: Seq<StrPairV>, name: Seq<char>, i: int) -> Option<
    Seq<char>,
>
    decreases pairs.len() - i when 0 <= i <= pairs.len()
{
    if i >= pairs.len() {
        None
    } else if pairs[i].name == name && version_parses(pairs[i].value) {
        Some(pairs[i].value)
    } else {
        find_version_value(pairs, name, i + 1)
    }
}

/// The value of the first pair with the given name, or nothing.
pub open spec fn find_pair_value(pairs: Seq<StrPairV>, name: Seq<char>, i: int) -> Option<
    Seq<char>,
>
    decreases pairs.len() - i when 0 <= i <= pairs.len()
{
    if i >= pairs.len() {
        None
    } else if pairs[i].name == name {
        Some(pairs[i].value)
    } else {
        find_pair_value(pairs, name, i + 1)
    }
}

/// The value of the first `stable = "version"` entry whose value parses,
/// or nothing.  An unparseable stable entry is passed over.
pub open spec fn find_stable(entries: Seq<MetaEntryV>, i: int) -> Option<Seq<char>>
    decreases entries.len() - i when 0 <= i <= entries.len()
{
    if i >= entries.len() {
        None
    } else if (entries[i] matches MetaEntryV::StrValue(n, v) && n == "stable"@ && version_parses(
        v,
    )) {
        match entries[i] {
            MetaEntryV::StrValue(n, v) => Some(v),
            _ => None,
        }
    } else {
        find_stable(entries, i + 1)
    }
}

/// What one entry contributes to the deprecation notice: a `deprecated`
/// list holding both a parseable version and an alternative.
pub open spec fn entry_deprecated(e: MetaEntryV) -> Option<(Seq<char>, Seq<char>)> {
    match e {
        MetaEntryV::List(n, pairs) => {
            if n == "deprecated"@ {
                match find_version_value(pairs, "version"@, 0) {
                    None => None,
                    Some(v) => match find_pair_value(pairs, "alternative"@, 0) {
                        None => None,
                        Some(a) => Some((v, a)),
                    },
                }
            } else {
                None
            }
        },
        _ => None,
    }
}

/// The first entry that yields a full deprecation notice, or nothing.
pub open spec fn find_deprecated(entries: Seq<MetaEntryV>, i: int) -> Option<
    (Seq<char>, Seq<char>),
>
    decreases entries.len() - i when 0 <= i <= entries.len()
{
    if i >= entries.len() {
        None
    } else if entry_deprecated(entries[i]) is Some {
        entry_deprecated(entries[i])
    } else {
        find_deprecated(entries, i + 1)
    }
}

/// Why a `config_option` attribute could not be read.
#[derive(Debug)]
pub enum TryFromConfigOptionAttributeError {
    /// No `config_option` attribute is present.
    NotFound,
    /// A `config_option` attribute is present but written in an
    /// unexpected format.
    Invalid,
}

/// The normalized form of a field's `config_option` attribute: its
/// default value, the version since which it is stable, and the version
/// since which it is deprecated with the suggested alternative.  The
/// versions are kept as their validated source strings.
pub struct ConfigOptionAttribute {
    pub default_value: String,
    pub stable: Option<String>,
    pub deprecated: Option<(String, String)>,
}

impl ConfigOptionAttribute {
    /// The option's default value.
    pub fn default_value(&self) -> (r: &str)
        ensures
            r@ == self.default_value@,
    {
        self.default_value.as_str()
    }

    /// The version since which the option is stable.
    pub fn stable(&self) -> (r: Option<&String>)
        ensures
            (match r {
                Some(v) => self.stable matches Some(q) && v@ == q@,
                None => self.stable is None,
            }),
    {
        self.stable.as_ref()
    }

    /// The deprecation notice: the version and the suggested alternative.
    pub fn deprecated(&self) -> (r: Option<&(String, String)>)
        ensures
            (match r {
                Some(p) => self.deprecated matches Some(q) && p.0@ == q.0@ && p.1@ == q.1@,
                None => self.deprecated is None,
            }),
    {
        self.deprecated.as_ref()
    }

    /// Read a field's interpreted attributes into the normalized form.
    /// The first `config_option` list is the one read; missing the list
    /// entirely, missing a default, or carrying both a stable and a
    /// deprecated marker is a failure, exactly as stated.
    #[verifier::loop_isolation(false)]
    pub fn try_from(attrs: &Vec<AttrMeta>) -> (r: Result<
        ConfigOptionAttribute,
        TryFromConfigOptionAttributeError,
    >)
        ensures
            ({
                let av = attrs.deep_view();
                let i = find_config_option(av, 0);
                if i >= av.len() {
                    r matches Err(TryFromConfigOptionAttributeError::NotFound)
                } else {
                    (match av[i] {
                        AttrMetaV::List(_, entries) => {
                            let default = find_str_value(entries, "default"@, 0);
                            let stable = find_stable(entries, 0);
                            let deprecated = find_deprecated(entries, 0);
                            if default is None || (stable is Some && deprecated is Some) {
                                r matches Err(TryFromConfigOptionAttributeError::Invalid)
                            } else {
                                (match r {
                                    Ok(a) => {
                                        &&& Some(a.default_value@) == default
                                        &&& (match a.stable {
                                            Some(v) => stable == Some(v@),
                                            None => stable is None,
                                        })
                                        &&& (match a.deprecated {
                                            Some(p) => deprecated == Some((p.0@, p.1@)),
                                            None => deprecated is None,
                                        })
                                    },
                                    Err(_) => false,
                                })
                            }
                        },
                        _ => false,
                    })
                }
            }),
    {
        let ghost av = attrs.deep_view();
        proof {
            assert(av.len() == attrs@.len());
        }
        let n = attrs.len();
        let mut i: usize = 0;
        let mut found: Option<usize> = None;
        while i < n
            invariant
                i <= n,
                n == attrs@.len(),
                found is None,
                find_config_option(av, 0) == find_config_option(av, i as int),
            decreases n - i,
        {
            proof {
                assert(av[i as int] == attrs@[i as int]@);
            }
            let is_co = match &attrs[i] {
                AttrMeta::List(name, _) => {
                    let co = String::from_str("config_option");
                    *name == co
                },
                AttrMeta::Other => false,
            };
            if is_co {
                proof {
                    assert(av[i as int] matches AttrMetaV::List(nm, _) && nm == "config_option"@);
                }
                found = Some(i);
                break ;
            }
            assert(!(av[i as int] matches AttrMetaV::List(nm, _) && nm == "config_option"@));
            i = i + 1;
        }
        let idx = match found {
            Some(v) => v,
            None => {
                assert(find_config_option(av, 0) == av.len());
                return Err(TryFromConfigOptionAttributeError::NotFound);
            },
        };
        assert(find_config_option(av, 0) == idx);
        let entries = match &attrs[idx] {
            AttrMeta::List(_, entries) => entries,
            AttrMeta::Other => {
                proof {
                    assert(false);
                }
                return Err(TryFromConfigOptionAttributeError::Invalid);
            },
        };
        let ghost ev = entries.deep_view();
        proof {
            assert(av[idx as int] == attrs@[idx as int]@);
            assert(av[idx as int] matches AttrMetaV::List(_, e2) && e2 == ev);
            assert(ev.len() == entries@.len());
        }
        let default_name = String::from_str("default");
        let default_value = match find_str_value_exec(entries, &default_name) {
            Some(v) => v,
            None => {
                proof {
                    assert(find_str_value(ev, "default"@, 0) is None);
                }
                return Err(TryFromConfigOptionAttributeError::Invalid);
            },
        };
        let stable = find_stable_exec(entries);
        let deprecated = find_deprecated_exec(entries);
        if stable.is_some() && deprecated.is_some() {
            return Err(TryFromConfigOptionAttributeError::Invalid);
        }
        Ok(ConfigOptionAttribute { default_value, stable, deprecated })
    }
}

/// The first `name = "value"` entry with the given name.
#[verifier::loop_isolation(false)]
fn find_str_value_exec(entries: &Vec<MetaEntry>, name: &String) -> (r: Option<String>)
    ensures
        (match r {
            Some(v) => find_str_value(entries.deep_view(), name@, 0) == Some(v@),
            None => find_str_value(entries.deep_view(), name@, 0) is None,
        }),
{
    let ghost ev = entries.deep_view();
    proof {
        assert(ev.len() == entries@.len());
    }
    let n = entries.len();
    let mut i: usize = 0;
    while i < n
        invariant
            i <= n,
            n == entries@.len(),
            find_str_value(ev, name@, 0) == find_str_value(ev, name@, i as int),
        decreases n - i,
    {
        proof {
            assert(ev[i as int] == entries@[i as int]@);
        }
        match &entries[i] {
            MetaEntry::StrValue(en, v) => {
                if *en == *name {
                    proof {
                        assert(ev[i as int] matches MetaEntryV::StrValue(n2, _) && n2 == name@);
                    }
                    return Some(v.clone());
                }
                assert(!(ev[i as int] matches MetaEntryV::StrValue(n2, _) && n2 == name@));
            },
            _ => {
                assert(!(ev[i as int] matches MetaEntryV::StrValue(n2, _) && n2 == name@));
            },
        }
        i = i + 1;
    }
    None
}

/// The first parseable `stable = "version"` entry.
#[verifier::loop_isolation(false)]
fn find_stable_exec(entries: &Vec<MetaEntry>) -> (r: Option<String>)
    ensures
        (match r {
            Some(v) => find_stable(entries.deep_view(), 0) == Some(v@),
            None => find_stable(entries.deep_view(), 0) is None,
        }),
{
    let ghost ev = entries.deep_view();
    proof {
        assert(ev.len() == entries@.len());
    }
    let stable_name = String::from_str("stable");
    let n = entries.len();
    let mut i: usize = 0;
    while i < n
        invariant
            i <= n,
            n == entries@.len(),
            find_stable(ev, 0) == find_stable(ev, i as int),
        decreases n - i,
    {
        proof {
            assert(ev[i as int] == entries@[i as int]@);
        }
        match &entries[i] {
            MetaEntry::StrValue(en, v) => {
                if *en == stable_name {
                    if version_is_valid(v.as_str()) {
                        proof {
                            assert(ev[i as int] matches MetaEntryV::StrValue(n2, v2) && n2
                                == "stable"@ && version_parses(v2));
                        }
                        return Some(v.clone());
                    }
                    assert(!(ev[i as int] matches MetaEntryV::StrValue(n2, v2) && n2 == "stable"@
                        && version_parses(v2)));
                } else {
                    assert(!(ev[i as int] matches MetaEntryV::StrValue(n2, v2) && n2 == "stable"@
                        && version_parses(v2)));
                }
            },
            _ => {
                assert(!(ev[i as int] matches MetaEntryV::StrValue(n2, v2) && n2 == "stable"@
                    && version_parses(v2)));
            },
        }
        i = i + 1;
    }
    None
}

/// The first pair with the given name whose value parses as a version.
#[verifier::loop_isolation(false)]
fn find_version_exec(pairs: &Vec<StrPair>, name: &String) -> (r: Option<String>)
    ensures
        (match r {
            Some(v) => find_version_value(pairs.deep_view(), name@, 0) == Some(v@),
            None => find_version_value(pairs.deep_view(), name@, 0) is None,
        }),
{
    let ghost pv = pairs.deep_view();
    proof {
        assert(pv.len() == pairs@.len());
    }
    let n = pairs.len();
    let mut i: usize = 0;
    while i < n
        invariant
            i <= n,
            n == pairs@.len(),
            find_version_value(pv, name@, 0) == find_version_value(pv, name@, i as int),
        decreases n - i,
    {
        proof {
            assert(pv[i as int] == pairs@[i as int]@);
        }
        if pairs[i].name == *name {
            if version_is_valid(pairs[i].value.as_str()) {
                return Some(pairs[i].value.clone());
            }
        }
        i = i + 1;
    }
    None
}

/// The first pair with the given name.
#[verifier::loop_isolation(false)]
fn find_pair_exec(pairs: &Vec<StrPair>, name: &String) -> (r: Option<String>)
    ensures
        (match r {
            Some(v) => find_pair_value(pairs.deep_view(), name@, 0) == Some(v@),
            None => find_pair_value(pairs.deep_view(), name@, 0) is None,
        }),
{
    let ghost pv = pairs.deep_view();
    proof {
        assert(pv.len() == pairs@.len());
    }
    let n = pairs.len();
    let mut i: usize = 0;
    while i < n
        invariant
            i <= n,
            n == pairs@.len(),
            find_pair_value(pv, name@, 0) == find_pair_value(pv, name@, i as int),
        decreases n - i,
    {
        proof {
            assert(pv[i as int] == pairs@[i as int]@);
        }
        if pairs[i].name == *name {
            return Some(pairs[i].value.clone());
        }
        i = i + 1;
    }
    None
}

/// The first entry yielding a full deprecation notice: its parsed version
/// and the alternative text.
#[verifier::loop_isolation(false)]
fn find_deprecated_exec(entries: &Vec<MetaEntry>) -> (r: Option<(String, String)>)
    ensures
        (match r {
            Some(p) => find_deprecated(entries.deep_view(), 0) == Some((p.0@, p.1@)),
            None => find_deprecated(entries.deep_view(), 0) is None,
        }),
{
    let ghost ev = entries.deep_view();
    proof {
        assert(ev.len() == entries@.len());
    }
    let deprecated_name = String::from_str("deprecated");
    let version_name = String::from_str("version");
    let alternative_name = String::from_str("alternative");
    let n = entries.len();
    let mut i: usize = 0;
    while i < n
        invariant
            i <= n,
            n == entries@.len(),
            find_deprecated(ev, 0) == find_deprecated(ev, i as int),
        decreases n - i,
    {
        proof {
            assert(ev[i as int] == entries@[i as int]@);
        }
        match &entries[i] {
            MetaEntry::List(en, pairs) => {
                if *en == deprecated_name {
                    match find_version_exec(pairs, &version_name) {
                        Some(ver) => {
                            match find_pair_exec(pairs, &alternative_name) {
                                Some(alt) => {
                                    proof {
                                        assert(entry_deprecated(ev[i as int]) == Some(
                                            (ver@, alt@),
                                        ));
                                    }
                                    return Some((ver, alt));
                                },
                                None => {
                                    assert(entry_deprecated(ev[i as int]) is None);
                                },
                            }
                        },
                        None => {
                            assert(entry_deprecated(ev[i as int]) is None);
                        },
                    }
                } else {
                    assert(entry_deprecated(ev[i as int]) is None);
                }
            },
            _ => {
                assert(entry_deprecated(ev[i as int]) is None);
            },
        }
        i = i + 1;
    }
    None
}

} // verus!
