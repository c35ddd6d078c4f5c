//! The generator's configuration (`codegen.json`) and the render contexts
//! that it gives for each output file.
use vstd::prelude::*;
use crate::sorted_map::SortedMap;
use crate::codegen::error::CodegenError;

verus! {

/// `serde_json::Value`, a property value of the configuration; carried
/// through unread.
#[verifier::external_type_specification]
#[verifier::external_body]
pub struct ExJsonValue(serde_json::Value);

/// One output file of a template: the property values it sets.
pub struct Output {
    pub properties: SortedMap<serde_json::Value>,
}

/// One template: its properties, each with a default or none, and the
/// output files it renders.
pub struct Template {
    pub properties: SortedMap<Option<serde_json::Value>>,
    pub outputs: SortedMap<Output>,
}

/// The whole configuration file.
pub struct Config {
    pub version: u32,
    pub template_root: String,
    pub default_glob: Option<String>,
    pub templates: SortedMap<Template>,
}

/// A value in a render context: the template's path, or a property value
/// borrowed from the configuration.
pub enum ContextValue<'a> {
    Text(String),
    Json(&'a serde_json::Value),
}

/// What a render context value stands for.
pub enum ContextEntry {
    Text(Seq<char>),
    Json(serde_json::Value),
}

impl<'a> View for ContextValue<'a> {
    type V = ContextEntry;

    open spec fn view(&self) -> ContextEntry {
        match self {
            ContextValue::Text(s) => ContextEntry::Text(s@),
            ContextValue::Json(v) => ContextEntry::Json(**v),
        }
    }
}

/// The variables that one output file is rendered with.
pub struct RenderContext<'a> {
    pub entries: SortedMap<ContextValue<'a>>,
}

impl<'a> View for RenderContext<'a> {
    type V = Map<Seq<char>, ContextEntry>;

    open spec fn view(&self) -> Map<Seq<char>, ContextEntry> {
        self.entries@.map_values(|v: ContextValue<'a>| v@)
    }
}

/// The name under which every render context holds its template's path.
pub const TEMPLATE_PATH_KEY: &'static str = "template_path";

/// The output paths with their render contexts, as maps of plain values.
pub open spec fn pairs_view<'a>(pairs: SortedMap<RenderContext<'a>>) -> Map<Seq<char>, Map<Seq<char>, ContextEntry>> {
    pairs@.map_values(|c: RenderContext<'a>| c@)
}

/// The value that `output` gives property `key` of `template`: its own, or
/// else the template's default (none when the template has no default).
pub open spec fn resolved_value(template: Template, output: Output, key: Seq<char>) -> Option<serde_json::Value> {
    if output.properties@.contains_key(key) {
        Some(output.properties@[key])
    } else {
        template.properties@[key]
    }
}

/// Some property of `template` has neither a value in `output` nor a default.
pub open spec fn lacks_value(template: Template, output: Output) -> bool {
    exists|key: Seq<char>|
        #[trigger] template.properties@.contains_key(key) && resolved_value(template, output, key) is None
}

/// Some output of some template lacks a property value.
pub open spec fn config_lacks_value(config: Config) -> bool {
    exists|t: Seq<char>, o: Seq<char>|
        #[trigger] config.templates@.contains_key(t) && #[trigger] config.templates@[t].outputs@.contains_key(o)
            && lacks_value(config.templates@[t], config.templates@[t].outputs@[o])
}

/// The render context of `output` of the template at `template_path`: the
/// template's path under [`TEMPLATE_PATH_KEY`], and every template property
/// with the value that the output resolves for it. A property with the same
/// name as the path entry takes its place.
pub open spec fn expected_context(template_path: Seq<char>, template: Template, output: Output) -> Map<Seq<char>, ContextEntry> {
    Map::new(
        |k: Seq<char>| k == TEMPLATE_PATH_KEY@ || template.properties@.contains_key(k),
        |k: Seq<char>|
            if template.properties@.contains_key(k) {
                ContextEntry::Json(resolved_value(template, output, k).unwrap())
            } else {
                ContextEntry::Text(template_path)
            },
    )
}

/// The render contexts of every output of one template.
pub open spec fn template_pairs(template_path: Seq<char>, template: Template) -> Map<Seq<char>, Map<Seq<char>, ContextEntry>> {
    Map::new(
        |o: Seq<char>| template.outputs@.contains_key(o),
        |o: Seq<char>| expected_context(template_path, template, template.outputs@[o]),
    )
}

/// The render contexts of the first `n` templates in key order: a later
/// template's output replaces an earlier one's of the same path.
pub open spec fn pairs_through(paths: Seq<Seq<char>>, templates: Seq<Template>, n: int) -> Map<Seq<char>, Map<Seq<char>, ContextEntry>>
    decreases n,
{
    if n <= 0 {
        Map::empty()
    } else {
        pairs_through(paths, templates, n - 1).union_prefer_right(template_pairs(paths[n - 1], templates[n - 1]))
    }
}

/// The render contexts that the whole configuration gives.
pub open spec fn expected_pairs(config: Config) -> Map<Seq<char>, Map<Seq<char>, ContextEntry>> {
    pairs_through(config.templates.keys(), config.templates.values(), config.templates.keys().len() as int)
}

/// The render context of `output` of the template at `template_path`, or
/// an error if a property has neither a value nor a default.
pub fn build_context<'a>(template_path: &String, template: &'a Template, output: &'a Output) -> (r: Result<RenderContext<'a>, CodegenError>)
    ensures
        r is Err <==> lacks_value(*template, *output),
        r matches Err(e) ==> e is MissingPropertyOverride,
        r matches Ok(c) ==> c@ == expected_context(template_path@, *template, *output),
{
    let mut context: SortedMap<ContextValue<'a>> = SortedMap::new();
    context.insert(TEMPLATE_PATH_KEY.to_owned(), ContextValue::Text(template_path.clone()));
    let ghost base = Map::<Seq<char>, ContextEntry>::empty().insert(TEMPLATE_PATH_KEY@, ContextEntry::Text(template_path@));
    let ghost props = template.properties;
    let n = template.properties.len();
    let mut k: usize = 0;
    while k < n
        invariant
            n == props.keys().len(),
            props == template.properties,
            props.entries_agree(),
            k <= n,
            forall|i: int| 0 <= i < k ==> resolved_value(*template, *output, #[trigger] props.keys()[i]) is Some,
            context@.map_values(|v: ContextValue<'a>| v@) == base.union_prefer_right(Map::new(
                |key: Seq<char>| exists|i: int| 0 <= i < k && props.keys()[i] == key,
                |key: Seq<char>| ContextEntry::Json(resolved_value(*template, *output, key).unwrap()),
            )),
        decreases n - k,
    {
        let prop_key = template.properties.key_at(k);
        let prop_default = template.properties.value_at(k);
        let value: &'a serde_json::Value = match output.properties.get(prop_key.as_str()) {
            Some(v) => v,
            None => match prop_default {
                Some(v) => v,
                None => {
                    assert(template.properties@.contains_key(prop_key@));
                    assert(props@[props.keys()[k as int]] == props.values()[k as int]);
                    return Err(CodegenError::MissingPropertyOverride);
                },
            },
        };
        assert(resolved_value(*template, *output, prop_key@) == Some(*value));
        let ghost before = context@;
        let ghost key_view = prop_key@;
        context.insert(prop_key.clone(), ContextValue::Json(value));
        proof {
            let old_target = Map::new(
                |key: Seq<char>| exists|i: int| 0 <= i < k && props.keys()[i] == key,
                |key: Seq<char>| ContextEntry::Json(resolved_value(*template, *output, key).unwrap()),
            );
            let new_target = Map::new(
                |key: Seq<char>| exists|i: int| 0 <= i < k + 1 && props.keys()[i] == key,
                |key: Seq<char>| ContextEntry::Json(resolved_value(*template, *output, key).unwrap()),
            );
            assert(new_target =~= old_target.insert(key_view, ContextEntry::Json(*value))) by {
                assert forall|key: Seq<char>| #[trigger] new_target.contains_key(key) implies old_target.insert(key_view, ContextEntry::Json(*value)).contains_key(key) by {
                    let i = choose|i: int| 0 <= i < k + 1 && props.keys()[i] == key;
                    if i < k {
                        assert(old_target.contains_key(key));
                    }
                }
                assert(props.keys()[k as int] == key_view);
            }
            assert(context@.map_values(|v: ContextValue<'a>| v@) =~= before.map_values(|v: ContextValue<'a>| v@).insert(key_view, ContextEntry::Json(*value)));
            assert(base.union_prefer_right(new_target) =~= base.union_prefer_right(old_target).insert(key_view, ContextEntry::Json(*value)));
        }
        k = k + 1;
    }
    proof {
        let target = Map::new(
            |key: Seq<char>| exists|i: int| 0 <= i < n && props.keys()[i] == key,
            |key: Seq<char>| ContextEntry::Json(resolved_value(*template, *output, key).unwrap()),
        );
        assert forall|key: Seq<char>| #[trigger] template.properties@.contains_key(key) implies resolved_value(*template, *output, key) is Some by {
            let i = props.keys().index_of(key);
            assert(props.keys()[i] == key);
        }
        assert(base.union_prefer_right(target) =~= expected_context(template_path@, *template, *output)) by {
            assert forall|key: Seq<char>| #[trigger] template.properties@.contains_key(key) implies target.contains_key(key) by {
                let i = props.keys().index_of(key);
                assert(props.keys()[i] == key);
            }
        }
    }
    Ok(RenderContext { entries: context })
}

/// The render contexts of template `t`'s first `m` outputs, in key order.
pub open spec fn template_pairs_through(template_path: Seq<char>, template: Template, m: int) -> Map<Seq<char>, Map<Seq<char>, ContextEntry>> {
    Map::new(
        |o: Seq<char>| exists|j: int| 0 <= j < m && template.outputs.keys()[j] == o,
        |o: Seq<char>| expected_context(template_path, template, template.outputs@[o]),
    )
}

impl Config {
    /// The render context of every output path, for a version 1 file: each
    /// output of each template, in key order, with the template's path and
    /// its properties resolved against the output. Where two templates
    /// render to the same path, the later template (in key order) wins.
    ///
    /// Fails with [`CodegenError::MissingPropertyOverride`] exactly when some
    /// output leaves a property without a value that has no default.
    pub fn build_output_pairs_v1<'a>(&'a self) -> (r: Result<SortedMap<RenderContext<'a>>, CodegenError>)
        ensures
            r is Err <==> config_lacks_value(*self),
            r matches Err(e) ==> e is MissingPropertyOverride,
            r matches Ok(pairs) ==> pairs_view(pairs) == expected_pairs(*self),
    {
        let mut output_pairs: SortedMap<RenderContext<'a>> = SortedMap::new();
        let ghost templates = self.templates;
        let ghost paths = templates.keys();
        let ghost tvals = templates.values();
        let nt = self.templates.len();
        let mut i: usize = 0;
        while i < nt
            invariant
                templates == self.templates,
                paths == templates.keys(),
                tvals == templates.values(),
                nt == paths.len(),
                templates.entries_agree(),
                i <= nt,
                forall|ti: int, o: Seq<char>|
                    0 <= ti < i && #[trigger] tvals[ti].outputs@.contains_key(o) ==> !lacks_value(tvals[ti], tvals[ti].outputs@[o]),
                pairs_view(output_pairs) == pairs_through(paths, tvals, i as int),
            decreases nt - i,
        {
            let template_path = self.templates.key_at(i);
            let template = self.templates.value_at(i);
            let ghost outs = template.outputs;
            let no = template.outputs.len();
            let mut j: usize = 0;
            while j < no
                invariant
                    templates == self.templates,
                    paths == templates.keys(),
                    tvals == templates.values(),
                    nt == paths.len(),
                    templates.entries_agree(),
                    i < nt,
                    *template == tvals[i as int],
                    template_path@ == paths[i as int],
                    outs == template.outputs,
                    no == outs.keys().len(),
                    outs.entries_agree(),
                    j <= no,
                    forall|ti: int, o: Seq<char>|
                        0 <= ti < i && #[trigger] tvals[ti].outputs@.contains_key(o) ==> !lacks_value(tvals[ti], tvals[ti].outputs@[o]),
                    forall|oj: int| 0 <= oj < j ==> !lacks_value(*template, #[trigger] outs@[outs.keys()[oj]]),
                    pairs_view(output_pairs) == pairs_through(paths, tvals, i as int).union_prefer_right(
                        template_pairs_through(template_path@, *template, j as int)),
                decreases no - j,
            {
                let output_path = template.outputs.key_at(j);
                let output = template.outputs.value_at(j);
                proof {
                    assert(outs@[outs.keys()[j as int]] == outs.values()[j as int]);
                }
                match build_context(template_path, template, output) {
                    Ok(context) => {
                        let ghost before = output_pairs@;
                        let ghost opath = output_path@;
                        let ghost cview = context@;
                        output_pairs.insert(output_path.clone(), context);
                        proof {
                            let old_t = template_pairs_through(template_path@, *template, j as int);
                            let new_t = template_pairs_through(template_path@, *template, j + 1);
                            assert(new_t =~= old_t.insert(opath, cview)) by {
                                assert forall|o: Seq<char>| #[trigger] new_t.contains_key(o) implies old_t.insert(opath, cview).contains_key(o) by {
                                    let jj = choose|jj: int| 0 <= jj < j + 1 && template.outputs.keys()[jj] == o;
                                    if jj < j {
                                        assert(old_t.contains_key(o));
                                    }
                                }
                                assert(outs.keys()[j as int] == opath);
                            }
                            assert(pairs_view(output_pairs) =~= before.map_values(|c: RenderContext<'a>| c@).insert(opath, cview));
                            let acc = pairs_through(paths, tvals, i as int);
                            assert(acc.union_prefer_right(new_t) =~= acc.union_prefer_right(old_t).insert(opath, cview));
                        }
                    },
                    Err(e) => {
                        proof {
                            assert(self.templates@.contains_key(paths[i as int]));
                            assert(self.templates@[paths[i as int]] == tvals[i as int]);
                            assert(template.outputs@.contains_key(output_path@));
                        }
                        return Err(e);
                    },
                }
                j = j + 1;
            }
            proof {
                let tp = template_pairs_through(template_path@, *template, no as int);
                assert(tp =~= template_pairs(paths[i as int], tvals[i as int])) by {
                    assert forall|o: Seq<char>| #[trigger] template.outputs@.contains_key(o) implies tp.contains_key(o) by {
                        let jj = outs.keys().index_of(o);
                        assert(outs.keys()[jj] == o);
                    }
                }
                assert forall|ti: int, o: Seq<char>|
                    0 <= ti < i + 1 && #[trigger] tvals[ti].outputs@.contains_key(o) implies !lacks_value(tvals[ti], tvals[ti].outputs@[o]) by {
                    if ti == i {
                        let jj = outs.keys().index_of(o);
                        assert(outs.keys()[jj] == o);
                    }
                }
            }
            i = i + 1;
        }
        proof {
            if config_lacks_value(*self) {
                let (t, o) = choose|t: Seq<char>, o: Seq<char>|
                    #[trigger] self.templates@.contains_key(t) && #[trigger] self.templates@[t].outputs@.contains_key(o)
                        && lacks_value(self.templates@[t], self.templates@[t].outputs@[o]);
                let ti = paths.index_of(t);
                assert(paths[ti] == t);
                assert(self.templates@[paths[ti]] == tvals[ti]);
            }
        }
        Ok(output_pairs)
    }

    /// The render context of every output path; only version 1 of the file
    /// format is known, any other version is an error.
    pub fn build_output_pairs<'a>(&'a self) -> (r: Result<SortedMap<RenderContext<'a>>, CodegenError>)
        ensures
            self.version != 1 ==> (r matches Err(e) && e is UnexpectedVersion),
            self.version == 1 ==> (r is Err <==> config_lacks_value(*self)),
            self.version == 1 ==> (r matches Err(e) ==> e is MissingPropertyOverride),
            self.version == 1 ==> (r matches Ok(pairs) ==> pairs_view(pairs) == expected_pairs(*self)),
    {
        match self.version {
            1 => self.build_output_pairs_v1(),
            _ => Err(CodegenError::UnexpectedVersion),
        }
    }
}

} // verus!
