//! What the render contexts of a configuration always satisfy.
use vstd::prelude::*;
use crate::order::key_less;
use crate::codegen::config::{
    Config, ContextEntry, Output, Template, config_lacks_value, expected_context, expected_pairs, lacks_value,
    pairs_through, template_pairs, TEMPLATE_PATH_KEY,
};

verus! {

proof fn lemma_pairs_through_dom(paths: Seq<Seq<char>>, templates: Seq<Template>, n: int, o: Seq<char>)
    requires
        0 <= n <= templates.len(),
    ensures
        pairs_through(paths, templates, n).contains_key(o)
            <==> exists|ti: int| 0 <= ti < n && #[trigger] templates[ti].outputs@.contains_key(o),
    decreases n,
{
    if n > 0 {
        lemma_pairs_through_dom(paths, templates, n - 1, o);
        if templates[n - 1].outputs@.contains_key(o) {
            assert(template_pairs(paths[n - 1], templates[n - 1]).contains_key(o));
        }
    }
}

proof fn lemma_pairs_through_last(paths: Seq<Seq<char>>, templates: Seq<Template>, n: int, ti: int, o: Seq<char>)
    requires
        0 <= ti < n <= templates.len(),
        templates[ti].outputs@.contains_key(o),
        forall|tj: int| ti < tj < n ==> !(#[trigger] templates[tj].outputs@.contains_key(o)),
    ensures
        pairs_through(paths, templates, n)[o] == expected_context(paths[ti], templates[ti], templates[ti].outputs@[o]),
    decreases n,
{
    if n - 1 > ti {
        lemma_pairs_through_last(paths, templates, n - 1, ti, o);
        lemma_pairs_through_dom(paths, templates, n - 1, o);
    }
}

/// Every output of every template gets a render context, and nothing else
/// does.
pub proof fn law_every_output_is_generated(config: Config, o: Seq<char>)
    requires
        config.templates.entries_agree(),
    ensures
        expected_pairs(config).contains_key(o) <==> exists|t: Seq<char>|
            #[trigger] config.templates@.contains_key(t) && config.templates@[t].outputs@.contains_key(o),
{
    let paths = config.templates.keys();
    let tvals = config.templates.values();
    lemma_pairs_through_dom(paths, tvals, paths.len() as int, o);
    if expected_pairs(config).contains_key(o) {
        let ti = choose|ti: int| 0 <= ti < paths.len() && #[trigger] tvals[ti].outputs@.contains_key(o);
        assert(config.templates@[paths[ti]] == tvals[ti]);
        assert(config.templates@.contains_key(paths[ti]));
    }
    if exists|t: Seq<char>|
        #[trigger] config.templates@.contains_key(t) && config.templates@[t].outputs@.contains_key(o) {
        let t = choose|t: Seq<char>|
            #[trigger] config.templates@.contains_key(t) && config.templates@[t].outputs@.contains_key(o);
        let ti = paths.index_of(t);
        assert(paths[ti] == t);
        assert(config.templates@[paths[ti]] == tvals[ti]);
    }
}

/// When several templates render to the same output path, the context is
/// that of the template whose key comes last: it is rendered with that
/// template's path and properties.
pub proof fn law_last_template_wins(config: Config, t: Seq<char>, o: Seq<char>)
    requires
        config.templates.entries_agree(),
        config.templates@.contains_key(t),
        config.templates@[t].outputs@.contains_key(o),
        forall|t2: Seq<char>|
            #[trigger] config.templates@.contains_key(t2) && key_less(t, t2) ==> !config.templates@[t2].outputs@.contains_key(o),
    ensures
        expected_pairs(config)[o] == expected_context(t, config.templates@[t], config.templates@[t].outputs@[o]),
{
    let paths = config.templates.keys();
    let tvals = config.templates.values();
    let ti = paths.index_of(t);
    assert(paths[ti] == t);
    assert(config.templates@[paths[ti]] == tvals[ti]);
    assert forall|tj: int| ti < tj < paths.len() implies !(#[trigger] tvals[tj].outputs@.contains_key(o)) by {
        assert(key_less(paths[ti], paths[tj]));
        assert(config.templates@[paths[tj]] == tvals[tj]);
        assert(config.templates@.contains_key(paths[tj]));
    }
    lemma_pairs_through_last(paths, tvals, paths.len() as int, ti, o);
}

/// An output's own value for a property overrides the template's default;
/// the template's path is there unless a property has the same name.
pub proof fn law_context_entries(template_path: Seq<char>, template: Template, output: crate::codegen::config::Output, key: Seq<char>)
    ensures
        template.properties@.contains_key(key) && output.properties@.contains_key(key)
            ==> expected_context(template_path, template, output)[key] == ContextEntry::Json(output.properties@[key]),
        template.properties@.contains_key(key) && !output.properties@.contains_key(key)
            && template.properties@[key] is Some
            ==> expected_context(template_path, template, output)[key] == ContextEntry::Json(template.properties@[key].unwrap()),
        !template.properties@.contains_key(TEMPLATE_PATH_KEY@)
            ==> expected_context(template_path, template, output)[TEMPLATE_PATH_KEY@] == ContextEntry::Text(template_path),
{
}

/// An output cannot be rendered exactly when one of its template's
/// properties has neither a value in the output nor a default, whatever
/// values the output sets for the other properties.
pub proof fn law_missing_value_fails(template: Template, output: Output)
    ensures
        lacks_value(template, output) <==> exists|key: Seq<char>|
            #[trigger] template.properties@.contains_key(key) && !output.properties@.contains_key(key)
                && template.properties@[key] is None,
{
}

/// A configuration cannot be rendered exactly when some output of some
/// template leaves a property of that template without a value or default.
pub proof fn law_config_fails_on_missing_value(config: Config)
    ensures
        config_lacks_value(config) <==> exists|t: Seq<char>, o: Seq<char>, key: Seq<char>|
            #[trigger] config.templates@.contains_key(t) && #[trigger] config.templates@[t].outputs@.contains_key(o)
                && #[trigger] config.templates@[t].properties@.contains_key(key)
                && !config.templates@[t].outputs@[o].properties@.contains_key(key)
                && config.templates@[t].properties@[key] is None,
{
    if config_lacks_value(config) {
        let (t, o) = choose|t: Seq<char>, o: Seq<char>|
            #[trigger] config.templates@.contains_key(t) && #[trigger] config.templates@[t].outputs@.contains_key(o)
                && lacks_value(config.templates@[t], config.templates@[t].outputs@[o]);
        law_missing_value_fails(config.templates@[t], config.templates@[t].outputs@[o]);
    }
    if exists|t: Seq<char>, o: Seq<char>, key: Seq<char>|
        #[trigger] config.templates@.contains_key(t) && #[trigger] config.templates@[t].outputs@.contains_key(o)
            && #[trigger] config.templates@[t].properties@.contains_key(key)
            && !config.templates@[t].outputs@[o].properties@.contains_key(key)
            && config.templates@[t].properties@[key] is None {
        let (t, o, key) = choose|t: Seq<char>, o: Seq<char>, key: Seq<char>|
            #[trigger] config.templates@.contains_key(t) && #[trigger] config.templates@[t].outputs@.contains_key(o)
                && #[trigger] config.templates@[t].properties@.contains_key(key)
                && !config.templates@[t].outputs@[o].properties@.contains_key(key)
                && config.templates@[t].properties@[key] is None;
        law_missing_value_fails(config.templates@[t], config.templates@[t].outputs@[o]);
        assert(lacks_value(config.templates@[t], config.templates@[t].outputs@[o]));
    }
}

/// A render context holds the template's path and every property of the
/// template, and nothing else: no property is left out.
pub proof fn law_context_holds_every_property(template_path: Seq<char>, template: Template, output: Output, key: Seq<char>)
    ensures
        expected_context(template_path, template, output).contains_key(key)
            <==> (key == TEMPLATE_PATH_KEY@ || template.properties@.contains_key(key)),
{
}

} // verus!
