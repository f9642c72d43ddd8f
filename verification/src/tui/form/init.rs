//! Opening a form and refilling its body.

use super::cursor::clamped;
use super::rows::{
    body_rows, endpoint_fits, field_rows, form_rows, heading, lemma_field_rows_fit, lemma_rows_fit,
    node_rows, object_body, param_row, param_rows, param_section, push_field, push_node,
    root_seed, row_of_param, section_header,
};
use super::serialize::body_heading;
use super::{fields_height, height, row_fits, FormRow, FormShape, FormState, RowShape, Section};
use crate::json::{Json, JsonValue};
use crate::model::schema_node::{field_shapes, SchemaNode};
use crate::model::{params_at, BodyShape, BodySpec, Endpoint, EndpointShape, ParamLocation, ParamShape};
use crate::text::owned;
use vstd::prelude::*;

verus! {

/// A fresh form.
pub open spec fn opened(endpoint: EndpointShape) -> FormShape {
    FormShape {
        rows: form_rows(endpoint),
        cursor: clamped(form_rows(endpoint), 0, 1) as nat,
        body_is_object: match endpoint.body {
            Some(body) => object_body(body.schema),
            None => true,
        },
    }
}

/// The rows in front of the body.
pub open spec fn rows_before_body(rows: Seq<RowShape>) -> Seq<RowShape> {
    match body_heading(rows, 0) {
        Some(h) => rows.take(h),
        None => rows,
    }
}

/// The form with its body refilled from a value.
pub open spec fn hydrated(form: FormShape, endpoint: EndpointShape, value: Json) -> FormShape {
    match endpoint.body {
        Some(body) => {
            let rows = rows_before_body(form.rows) + seq![heading(Section::Body)] + body_rows(
                body,
                Some(value),
            );
            FormShape {
                rows,
                cursor: clamped(rows, form.cursor as int, 1) as nat,
                body_is_object: form.body_is_object && object_body(body.schema),
            }
        },
        None => form,
    }
}

proof fn lemma_params_at_fit(params: Seq<ParamShape>, location: ParamLocation, i: int)
    requires
        0 <= i,
        forall|k: int| 0 <= k < params.len() ==> height((#[trigger] params[k]).schema) <= u16::MAX,
    ensures
        forall|k: int|
            0 <= k < params_at(params, location, i).len() ==> height(
                (#[trigger] params_at(params, location, i)[k]).schema,
            ) <= u16::MAX,
    decreases params.len() - i,
{
    if i < params.len() {
        lemma_params_at_fit(params, location, i + 1);
        let rest = params_at(params, location, i + 1);
        let here = params_at(params, location, i);
        if params[i].location == location {
            assert forall|k: int| 0 <= k < here.len() implies height((#[trigger] here[k]).schema)
                <= u16::MAX by {
                if k > 0 {
                    assert(here[k] == rest[k - 1]);
                }
            }
        }
    }
}

/// All rows fit.
pub open spec fn all_fit(rows: Seq<RowShape>) -> bool {
    forall|k: int| 0 <= k < rows.len() ==> row_fits(#[trigger] rows[k])
}

proof fn lemma_section_fits(endpoint: EndpointShape, section: Section, location: ParamLocation)
    requires
        endpoint_fits(endpoint),
    ensures
        all_fit(param_section(section, params_at(endpoint.params, location, 0))),
{
    lemma_params_at_fit(endpoint.params, location, 0);
    let params = params_at(endpoint.params, location, 0);
    let rows = param_section(section, params);
    assert forall|k: int| 0 <= k < rows.len() implies row_fits(#[trigger] rows[k]) by {
        if k > 0 {
            assert(rows[k] == row_of_param(section, params[k - 1]));
        }
    }
}

pub proof fn lemma_all_fit_add(a: Seq<RowShape>, b: Seq<RowShape>)
    requires
        all_fit(a),
        all_fit(b),
    ensures
        all_fit(a + b),
{
    let rows = a + b;
    assert forall|k: int| 0 <= k < rows.len() implies row_fits(#[trigger] rows[k]) by {
        if k < a.len() {
            assert(rows[k] == a[k]);
        } else {
            assert(rows[k] == b[k - a.len()]);
        }
    }
}

proof fn lemma_body_fits(body: BodyShape, value: Option<Json>)
    requires
        height(body.schema) <= u16::MAX,
    ensures
        all_fit(body_rows(body, value)),
{
    if object_body(body.schema) {
        lemma_field_rows_fit(body.schema->Object_fields, 0, 0, value);
    } else {
        let hydrated = match value {
            Some(v) => Some(Some(v)),
            None => None,
        };
        lemma_rows_fit(root_seed(body.required, body.nullable, hydrated), 0, body.schema);
    }
}

/// Appends the section of the parameters sent in one place.
fn push_params(
    rows: &mut Vec<FormRow>,
    endpoint: &Endpoint,
    location: ParamLocation,
    section: Section,
)
    ensures
        final(rows).deep_view() == old(rows).deep_view() + param_section(
            section,
            params_at(endpoint@.params, location, 0),
        ),
{
    let ghost start = rows.deep_view();
    let params = endpoint.params_in(location);
    let ghost all = params.deep_view();
    let ghost wanted = param_section(section, all);
    if params.len() == 0 {
        assert(start + wanted =~= start);
        return;
    }
    rows.push(section_header(section));
    assert(rows.deep_view() =~= start + wanted.take(1));
    for i in 0..params.len()
        invariant
            all == params.deep_view(),
            all.len() > 0,
            wanted == param_section(section, all),
            rows.deep_view() == start + wanted.take(i + 1),
    {
        let ghost before = rows.deep_view();
        assert(all[i as int] == params@[i as int]@);
        let row = param_row(section, params[i]);
        let ghost added = row@;
        rows.push(row);
        assert(rows.deep_view() =~= before.push(added));
        assert(wanted[i + 1] == added);
        assert(before.push(added) =~= start + wanted.take(i + 2));
    }
    assert(wanted.take(wanted.len() as int) =~= wanted);
}

/// Appends the rows of a body, optionally filled from a value. Whether the
/// fields of the body are listed at the top level.
fn push_body(rows: &mut Vec<FormRow>, body: &BodySpec, value: Option<&JsonValue>) -> (r: bool)
    requires
        height(body@.schema) <= u16::MAX,
    ensures
        final(rows).deep_view() == old(rows).deep_view() + body_rows(
            body@,
            value.deep_view(),
        ),
        r == object_body(body@.schema),
{
    let ghost start = rows.deep_view();
    let ghost all = body_rows(body@, value.deep_view());
    match &body.schema {
        SchemaNode::Object { fields, .. } => {
            let ghost shapes = field_shapes(fields);
            assert(body@.schema->Object_fields == shapes);
            if fields.len() > 0 {
                for i in 0..fields.len()
                    invariant
                        shapes == field_shapes(fields),
                        fields_height(shapes, 0) <= u16::MAX,
                        rows.deep_view() + field_rows(shapes, i as int, 0, value.deep_view())
                            == start + all,
                {
                    let ghost before = rows.deep_view();
                    let field = &fields[i];
                    assert(shapes[i as int] == field@);
                    proof {
                        super::rows::lemma_field_height(shapes, 0, i as int);
                    }
                    if !field.read_only {
                        push_field(rows, field, 0, value);
                        let ghost mine = node_rows(
                            super::rows::field_seed(field@, value.deep_view()),
                            0,
                            field@.schema,
                        );
                        assert(rows.deep_view() == before + mine);
                        assert(rows.deep_view() + field_rows(
                            shapes,
                            i + 1,
                            0,
                            value.deep_view(),
                        ) =~= before + (mine + field_rows(shapes, i + 1, 0, value.deep_view())));
                    }
                }
                assert(rows.deep_view() =~= start + all);
                return true;
            }
        },
        _ => {},
    }
    let hydrated = match value {
        Some(v) => Some(Some(v.clone())),
        None => None,
    };
    push_node(
        rows,
        owned("body"),
        0,
        &body.schema,
        body.required,
        body.nullable,
        None,
        None,
        hydrated,
    );
    false
}

impl FormState {
    /// The form of an endpoint.
    pub fn new(endpoint: &Endpoint) -> (r: FormState)
        requires
            endpoint_fits(endpoint@),
        ensures
            r@ == opened(endpoint@),
            r@.wf(),
    {
        let mut rows: Vec<FormRow> = Vec::new();
        push_params(&mut rows, endpoint, ParamLocation::Path, Section::Path);
        push_params(&mut rows, endpoint, ParamLocation::Query, Section::Query);
        push_params(&mut rows, endpoint, ParamLocation::Header, Section::Header);
        let ghost params = param_rows(endpoint@);
        assert(rows.deep_view() =~= params);
        proof {
            lemma_section_fits(endpoint@, Section::Path, ParamLocation::Path);
            lemma_section_fits(endpoint@, Section::Query, ParamLocation::Query);
            lemma_section_fits(endpoint@, Section::Header, ParamLocation::Header);
            let path = param_section(
                Section::Path,
                params_at(endpoint@.params, ParamLocation::Path, 0),
            );
            let query = param_section(
                Section::Query,
                params_at(endpoint@.params, ParamLocation::Query, 0),
            );
            let header = param_section(
                Section::Header,
                params_at(endpoint@.params, ParamLocation::Header, 0),
            );
            lemma_all_fit_add(path, query);
            lemma_all_fit_add(path + query, header);
        }
        let mut body_is_object = true;
        if let Some(body) = &endpoint.body {
            rows.push(section_header(Section::Body));
            assert(rows.deep_view() =~= params + seq![heading(Section::Body)]);
            body_is_object = push_body(&mut rows, body, None);
            proof {
                lemma_body_fits(body@, None);
                lemma_all_fit_add(params, seq![heading(Section::Body)]);
                lemma_all_fit_add(
                    params + seq![heading(Section::Body)],
                    body_rows(body@, None),
                );
            }
        }
        assert(rows.deep_view() =~= form_rows(endpoint@));
        let mut form = FormState { rows, cursor: 0, body_is_object };
        form.clamp_cursor_to_interactive(1);
        form
    }

    /// Rebuilds the body section from a JSON value (after $EDITOR editing).
    pub fn hydrate_body(&mut self, endpoint: &Endpoint, value: &JsonValue)
        requires
            endpoint_fits(endpoint@),
            old(self)@.wf(),
        ensures
            final(self)@ == hydrated(old(self)@, endpoint@, value@),
            final(self)@.wf(),
    {
        let body = match &endpoint.body {
            Some(body) => body,
            None => {
                return;
            },
        };
        let ghost all = self@.rows;
        let ghost front = rows_before_body(all);
        // Drop the existing body rows.
        let mut i: usize = 0;
        while i < self.rows.len()
            invariant_except_break
                i <= all.len(),
                body_heading(all, 0) == body_heading(all, i as int),
            invariant
                all == self@.rows,
                self.cursor == old(self).cursor,
                self.body_is_object == old(self).body_is_object,
            ensures
                i <= all.len(),
                i < all.len() ==> body_heading(all, 0) == Some(i as int),
                i == all.len() ==> body_heading(all, 0) is None,
            decreases all.len() - i,
        {
            assert(all[i as int] == self.rows@[i as int]@);
            if self.rows[i].section == Section::Body && self.rows[i].kind.is_section_header() {
                break;
            }
            i += 1;
        }
        if i < self.rows.len() {
            self.rows.truncate(i);
        }
        assert(self.rows.deep_view() =~= front);
        assert forall|k: int| 0 <= k < front.len() implies row_fits(#[trigger] front[k]) by {
            assert(front[k] == all[k]);
        }
        self.rows.push(section_header(Section::Body));
        assert(self.rows.deep_view() =~= front + seq![heading(Section::Body)]);
        let listed = push_body(&mut self.rows, body, Some(value));
        proof {
            lemma_body_fits(body@, Some(value@));
            lemma_all_fit_add(front, seq![heading(Section::Body)]);
            lemma_all_fit_add(
                front + seq![heading(Section::Body)],
                body_rows(body@, Some(value@)),
            );
        }
        if !listed {
            self.body_is_object = false;
        }
        self.clamp_cursor_to_interactive(1);
    }
}

} // verus!
