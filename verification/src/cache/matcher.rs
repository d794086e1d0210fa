//! Which queries are cached.
use vstd::hash_map::StringHashMap;
use vstd::prelude::*;
use crate::cache::{QueryTemplate, Template};
use crate::config::Config;

verus! {

broadcast use vstd::hash_map::group_hash_map_axioms;

/// The templates by their text; of several with one text the last counts.
pub open spec fn templates_by_sql(queries: Seq<QueryTemplate>) -> Map<Seq<char>, Template>
    decreases queries.len(),
{
    if queries.len() == 0 {
        Map::empty()
    } else {
        templates_by_sql(queries.drop_last()).insert(queries.last()@.sql, queries.last()@)
    }
}

/// Finds the template of a query.
pub struct QueryMatcher {
    pub templates: StringHashMap<QueryTemplate>,
}

impl View for QueryMatcher {
    type V = Map<Seq<char>, Template>;

    open spec fn view(&self) -> Map<Seq<char>, Template> {
        self.templates@.map_values(|template: QueryTemplate| template@)
    }
}

impl QueryMatcher {
    pub fn new(config: &Config) -> (matcher: Self)
        ensures
            matcher@ == templates_by_sql(config.queries@),
    {
        let mut templates: StringHashMap<QueryTemplate> = StringHashMap::new();
        let mut i: usize = 0;
        let ghost by_view = |template: QueryTemplate| template@;
        assert(templates@.map_values(by_view) =~= templates_by_sql(config.queries@.take(0)));
        while i < config.queries.len()
            invariant
                i <= config.queries.len(),
                by_view == (|template: QueryTemplate| template@),
                templates@.map_values(by_view) == templates_by_sql(config.queries@.take(i as int)),
            decreases config.queries.len() - i,
        {
            let query: &QueryTemplate = &config.queries[i];
            let ghost before = templates@;
            templates.insert(query.sql.clone(), query.clone());
            proof {
                let done = config.queries@.take(i + 1);
                assert(done.drop_last() =~= config.queries@.take(i as int));
                assert(templates@.map_values(by_view) =~= before.map_values(by_view).insert(
                    query@.sql,
                    query@,
                ));
            }
            i = i + 1;
        }
        assert(config.queries@.take(i as int) =~= config.queries@);
        QueryMatcher { templates }
    }

    pub fn find_template(&self, sql: &str) -> (template: Option<&QueryTemplate>)
        ensures
            match template {
                Some(template) => self@.contains_key(sql@) && template@ == self@[sql@],
                None => !self@.contains_key(sql@),
            },
    {
        self.templates.get(sql)
    }

    pub fn template_exists(&self, sql: &str) -> (exists_one: bool)
        ensures
            exists_one == self@.contains_key(sql@),
    {
        self.templates.contains_key(sql)
    }
}

/// A query is found exactly if it is configured, and the template found is the last one configured
/// with that text.
pub proof fn law_last_template_counts(queries: Seq<QueryTemplate>, sql: Seq<char>)
    ensures
        templates_by_sql(queries).contains_key(sql) <==> exists|i: int|
            0 <= i < queries.len() && (#[trigger] queries[i])@.sql == sql,
        forall|i: int|
            0 <= i < queries.len() && (#[trigger] queries[i])@.sql == sql && (forall|j: int|
                i < j < queries.len() ==> (#[trigger] queries[j])@.sql != sql)
                ==> templates_by_sql(queries)[sql] == queries[i]@,
        templates_by_sql(queries).contains_key(sql) ==> templates_by_sql(queries)[sql].sql == sql,
    decreases queries.len(),
{
    if queries.len() > 0 {
        let before = queries.drop_last();
        law_last_template_counts(before, sql);
        if queries.last()@.sql == sql {
            assert(queries[queries.len() - 1]@.sql == sql);
        } else {
            if templates_by_sql(before).contains_key(sql) {
                let i = choose|i: int| 0 <= i < before.len() && (#[trigger] before[i])@.sql == sql;
                assert(queries[i]@.sql == sql);
            }
            assert forall|i: int| 0 <= i < queries.len() && (#[trigger] queries[i])@.sql == sql
                implies i < before.len() && before[i]@.sql == sql by {}
            assert forall|i: int|
                0 <= i < queries.len() && (#[trigger] queries[i])@.sql == sql && (forall|j: int|
                    i < j < queries.len() ==> (#[trigger] queries[j])@.sql
                        != sql) implies templates_by_sql(queries)[sql] == queries[i]@ by {
                assert(before[i] == queries[i]);
                assert forall|j: int| i < j < before.len() implies (#[trigger] before[j])@.sql
                    != sql by {
                    assert(queries[j] == before[j]);
                }
            }
        }
    }
}

} // verus!
