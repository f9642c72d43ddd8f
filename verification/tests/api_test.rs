//! Specs, templates, forms, screens and commands on one sample API.

use std::sync::Arc;

use hitpoint::cli::listing::select_endpoints;
use hitpoint::cli::output::print_result;
use hitpoint::cli::projects::{projects_cmd, Aftermath};
use hitpoint::cli::run::{body_source, parse_body, request_args, run_cmd, BodySource};
use hitpoint::cli::{
    endpoints_cmd, parse_header, parse_kv, refresh_cmd, tags_cmd, template_cmd, ProjectsCmd,
    RunArgs,
};
use hitpoint::config::{BaseUrl, Framework, ProjectConfig, ProjectsConfig};
use hitpoint::error::HitError;
use hitpoint::http::{ApiResponse, Payload};
use hitpoint::json::JsonValue;
use hitpoint::mcp;
use hitpoint::model::{build_template, ApiSpec, Endpoint, ParamLocation, SchemaNode};
use hitpoint::names::NameMap;
use hitpoint::spec::build;
use hitpoint::spec::load::SpecOrigin;
use hitpoint::tui::form::{FormRow, FormState, RowKind, RowState, Section};
use hitpoint::tui::screens::endpoints::EndpointList;
use hitpoint::tui::screens::form::RequestForm;
use hitpoint::tui::screens::response::ResponseView;
use hitpoint::tui::screens::{Action, Body, Drawing, KeyCode, KeyEvent, Screen};
use hitpoint::tui::theme::Line;
use hitpoint::tui::{App, AppCtx, AppMsg, Effect, Flow, SpecBundle};

const FASTAPI_31: &str = r##"{
  "openapi": "3.1.0",
  "info": {"title": "Demo Shop API", "version": "1.2.0"},
  "tags": [
    {"name": "users", "description": "User management"},
    {"name": "items"},
    {"name": "auth"}
  ],
  "paths": {
    "/users/": {
      "get": {
        "tags": ["users"], "summary": "List Users", "operationId": "list_users_users__get",
        "parameters": [
          {"name": "limit", "in": "query", "required": false,
           "schema": {"type": "integer", "default": 20, "title": "Limit"}},
          {"name": "cursor", "in": "query", "required": false,
           "schema": {"anyOf": [{"type": "string"}, {"type": "null"}], "title": "Cursor"}}
        ],
        "responses": {"200": {"description": "Successful Response", "content": {"application/json": {"schema": {"type": "array", "items": {"$ref": "#/components/schemas/UserOut"}}}}}},
        "security": [{"OAuth2PasswordBearer": []}]
      },
      "post": {
        "tags": ["users"], "summary": "Create User", "description": "Create a new user account.",
        "operationId": "create_user_users__post",
        "requestBody": {"required": true, "content": {"application/json": {"schema": {"$ref": "#/components/schemas/UserCreate"}}}},
        "responses": {
          "201": {"description": "User created", "content": {"application/json": {"schema": {"$ref": "#/components/schemas/UserOut"}}}},
          "422": {"description": "Validation Error"}
        },
        "security": [{"OAuth2PasswordBearer": []}]
      }
    },
    "/users/{user_id}": {
      "get": {
        "tags": ["users"], "summary": "Get User", "operationId": "get_user_users__user_id__get",
        "parameters": [{"name": "user_id", "in": "path", "required": true, "schema": {"type": "string", "format": "uuid"}}],
        "responses": {"200": {"description": "Successful Response"}},
        "security": [{"OAuth2PasswordBearer": []}]
      },
      "patch": {
        "tags": ["users"], "summary": "Update User", "operationId": "update_user_users__user_id__patch",
        "parameters": [{"name": "user_id", "in": "path", "required": true, "schema": {"type": "string"}}],
        "requestBody": {"required": true, "content": {"application/json": {"schema": {"$ref": "#/components/schemas/UserUpdate"}}}},
        "responses": {"200": {"description": "Successful Response"}},
        "security": [{"OAuth2PasswordBearer": []}]
      }
    },
    "/items/": {
      "post": {
        "tags": ["items"], "summary": "Create Item", "operationId": "create_item_items__post",
        "requestBody": {"required": true, "content": {"application/json": {"schema": {"$ref": "#/components/schemas/ItemCreate"}}}},
        "responses": {"200": {"description": "Successful Response"}},
        "security": [{"OAuth2PasswordBearer": []}]
      }
    },
    "/auth/login": {
      "post": {
        "tags": ["auth"], "summary": "Login", "operationId": "login_auth_login_post",
        "requestBody": {"required": true, "content": {"application/x-www-form-urlencoded": {"schema": {"$ref": "#/components/schemas/LoginForm"}}}},
        "responses": {"200": {"description": "Successful Response"}}
      }
    },
    "/health": {
      "get": {
        "summary": "Health", "operationId": "health_health_get",
        "responses": {"200": {"description": "Successful Response"}}
      }
    }
  },
  "components": {"schemas": {
    "Role": {"type": "string", "enum": ["admin", "member", "viewer"], "title": "Role"},
    "Address": {
      "type": "object", "required": ["line1", "city"], "title": "Address",
      "properties": {
        "line1": {"type": "string"},
        "line2": {"anyOf": [{"type": "string"}, {"type": "null"}]},
        "city": {"type": "string"}
      }
    },
    "UserCreate": {
      "type": "object", "required": ["email", "name", "nickname"], "title": "UserCreate",
      "properties": {
        "email": {"type": "string", "format": "email", "description": "Where to reach the user"},
        "name": {"type": "string"},
        "nickname": {"anyOf": [{"type": "string"}, {"type": "null"}]},
        "role": {"$ref": "#/components/schemas/Role", "default": "member"},
        "age": {"anyOf": [{"type": "integer"}, {"type": "null"}], "default": null},
        "address": {"anyOf": [{"$ref": "#/components/schemas/Address"}, {"type": "null"}]},
        "tags": {"type": "array", "items": {"type": "string"}, "default": []}
      }
    },
    "UserUpdate": {
      "type": "object", "title": "UserUpdate",
      "properties": {
        "name": {"anyOf": [{"type": "string"}, {"type": "null"}]},
        "nickname": {"anyOf": [{"type": "string"}, {"type": "null"}]}
      }
    },
    "UserOut": {
      "type": "object", "required": ["id", "email"], "title": "UserOut",
      "properties": {
        "id": {"type": "string", "format": "uuid"},
        "email": {"type": "string", "format": "email"}
      }
    },
    "Variant": {
      "type": "object", "required": ["name", "stock"], "title": "Variant",
      "properties": {"name": {"type": "string"}, "stock": {"type": "integer"}}
    },
    "ItemCreate": {
      "type": "object", "required": ["sku", "price"], "title": "ItemCreate",
      "properties": {
        "sku": {"type": "string"},
        "price": {"type": "number"},
        "variants": {"type": "array", "items": {"$ref": "#/components/schemas/Variant"}, "default": []},
        "kind": {"const": "physical", "default": "physical"},
        "parent": {"anyOf": [{"$ref": "#/components/schemas/ItemCreate"}, {"type": "null"}]}
      }
    },
    "LoginForm": {
      "type": "object", "required": ["username", "password"], "title": "LoginForm",
      "properties": {"username": {"type": "string"}, "password": {"type": "string"}}
    }
  }}
}"##;

const FASTAPI_30: &str = r##"{
  "openapi": "3.0.2",
  "info": {"title": "Notes", "version": "0.1.0"},
  "paths": {
    "/notes/": {
      "post": {
        "summary": "Create Note", "operationId": "create_note_notes__post",
        "requestBody": {"required": true, "content": {"application/json": {"schema": {"$ref": "#/components/schemas/NoteCreate"}}}},
        "responses": {"200": {"description": "Successful Response"}}
      }
    }
  },
  "components": {"schemas": {
    "Priority": {"type": "string", "enum": ["low", "high"]},
    "NoteCreate": {
      "type": "object", "required": ["title"],
      "properties": {
        "title": {"type": "string"},
        "subtitle": {"type": "string", "nullable": true},
        "priority": {"allOf": [{"$ref": "#/components/schemas/Priority"}], "default": "low"}
      }
    }
  }}
}"##;

fn json(text: &str) -> JsonValue {
    JsonValue::parse(text).unwrap()
}

fn fixture() -> ApiSpec {
    build(&json(FASTAPI_31)).unwrap()
}

fn fixture_endpoint(id: &str) -> Endpoint {
    fixture().find_endpoint(id).unwrap().clone()
}

fn row_index(form: &FormState, label: &str) -> usize {
    form.rows.iter().position(|r| r.label == label).unwrap()
}

fn member<'a>(value: &'a JsonValue, key: &str) -> &'a JsonValue {
    value.get(key).unwrap()
}

// ---------------------------------------------------------------- specs

#[test]
fn builds_31_spec_with_tags_in_declared_order() {
    let spec = fixture();
    assert_eq!(spec.title, "Demo Shop API");
    assert_eq!(spec.openapi_version, "3.1.0");

    let tag_names: Vec<&str> = spec.tags.iter().map(|t| t.name.as_str()).collect();
    // Declared order first, then the untagged bucket (from /health).
    assert_eq!(tag_names, vec!["users", "items", "auth", "untagged"]);

    let users = spec.tag("users").unwrap();
    assert_eq!(users.endpoint_ids.len(), 4);
    assert_eq!(users.description.as_deref(), Some("User management"));
    let listed: Vec<&str> = spec
        .endpoints_for_tag(users)
        .iter()
        .map(|e| e.id.as_str())
        .collect();
    assert_eq!(listed, users.endpoint_ids);
}

#[test]
fn endpoint_lookup_by_id_and_method_path() {
    let spec = fixture();
    assert!(spec.find_endpoint("create_user_users__post").is_ok());
    assert!(spec.find_endpoint("POST /users/").is_ok());
    assert!(spec.find_endpoint("post /users/").is_ok());

    let err = spec.find_endpoint("create_userz").unwrap_err();
    let msg = err.message();
    assert!(msg.contains("unknown endpoint"), "{msg}");
}

#[test]
fn lookup_ignores_case_of_the_method_and_blanks_around_the_key() {
    let spec = fixture();
    let found = spec.find_endpoint("create_user_users__post").unwrap();
    for key in [
        "POST /users/",
        "pOsT /users/",
        " POST /users/ ",
        " create_user_users__post ",
    ] {
        assert_eq!(spec.find_endpoint(key).unwrap().id, found.id, "{key}");
    }
    // The case of a path matters.
    assert!(spec.find_endpoint("POST /Users/").is_err());
}

#[test]
fn unsupported_content_degrades_to_json_of_any_schema() {
    let spec = build(&json(
        r#"{"openapi": "3.1.0", "info": {"title": "T", "version": "1"}, "paths": {
            "/a": {"post": {"operationId": "a", "requestBody":
                {"content": {"text/plain": {"schema": {"type": "string"}}}}}},
            "/b": {"post": {"operationId": "b", "requestBody":
                {"required": true, "content": {"image/png": {}, "text/csv": {}}}}},
            "/c": {"post": {"operationId": "c", "requestBody": {"content": {}}}},
            "/d": {"post": {"operationId": "d", "requestBody":
                {"content": {"text/csv": {}, "application/vnd.x+json": {"schema": {"type": "string"}}}}}}
        }}"#,
    ))
    .unwrap();
    let body = |id: &str| spec.find_endpoint(id).unwrap().body.clone();
    let a = body("a").unwrap();
    assert_eq!(a.content_type, "application/json");
    assert_eq!(a.schema, SchemaNode::Any);
    assert!(!a.required);
    let b = body("b").unwrap();
    assert_eq!(b.content_type, "application/json");
    assert_eq!(b.schema, SchemaNode::Any);
    assert!(b.required);
    assert!(body("c").is_none());
    let d = body("d").unwrap();
    assert_eq!(d.content_type, "application/vnd.x+json");
    assert!(matches!(d.schema, SchemaNode::String { .. }));
}

#[test]
fn required_nullable_matrix_from_31_spec() {
    let spec = fixture();
    let endpoint = spec.find_endpoint("create_user_users__post").unwrap();
    let body = endpoint.body.as_ref().unwrap();
    assert_eq!(body.content_type, "application/json");
    let SchemaNode::Object { fields, .. } = &body.schema else {
        panic!("expected object body");
    };
    let field = |name: &str| fields.iter().find(|f| f.name == name).unwrap();

    // str -> required, not nullable
    assert!(field("email").required && !field("email").nullable);
    // Optional[str] without default -> required AND nullable
    assert!(field("nickname").required && field("nickname").nullable);
    // Optional[int] = None -> optional + nullable
    assert!(!field("age").required && field("age").nullable);
    // enum ref with default -> optional, not nullable, default preserved
    let role = field("role");
    assert!(!role.required && !role.nullable);
    assert_eq!(role.default, Some(json("\"member\"")));
    assert!(matches!(
        &role.schema,
        SchemaNode::String { enum_values: Some(v), .. } if v == &["admin", "member", "viewer"]
    ));
    // nested optional model
    let address = field("address");
    assert!(address.nullable && !address.required);
    assert!(matches!(address.schema, SchemaNode::Object { .. }));
    // recursive model arm degrades to Any
    let item_endpoint = spec.find_endpoint("create_item_items__post").unwrap();
    let SchemaNode::Object {
        fields: item_fields,
        ..
    } = &item_endpoint.body.as_ref().unwrap().schema
    else {
        panic!()
    };
    let parent = item_fields.iter().find(|f| f.name == "parent").unwrap();
    assert_eq!(parent.schema, SchemaNode::Any);
}

#[test]
fn params_are_normalized_with_locations() {
    let spec = fixture();
    let list = spec.find_endpoint("list_users_users__get").unwrap();
    let query = list.params_in(ParamLocation::Query);
    let limit = query.iter().find(|p| p.name == "limit").unwrap();
    assert!(!limit.required);
    assert_eq!(limit.default, Some(json("20")));

    let get_user = spec.find_endpoint("get_user_users__user_id__get").unwrap();
    let path = get_user.params_in(ParamLocation::Path);
    let user_id = path.iter().find(|p| p.name == "user_id").unwrap();
    assert!(user_id.required);
    assert!(matches!(
        &user_id.schema,
        SchemaNode::String { format: Some(f), .. } if f == "uuid"
    ));
}

#[test]
fn auth_required_follows_operation_security() {
    let spec = fixture();
    assert!(
        spec.find_endpoint("create_user_users__post")
            .unwrap()
            .auth_required
    );
    assert!(
        !spec
            .find_endpoint("health_health_get")
            .unwrap()
            .auth_required
    );
    assert!(
        !spec
            .find_endpoint("login_auth_login_post")
            .unwrap()
            .auth_required
    );
}

#[test]
fn template_snapshot_create_user() {
    let spec = fixture();
    let endpoint = spec.find_endpoint("create_user_users__post").unwrap();
    let template = build_template(endpoint).to_json();
    assert_eq!(
        member(&template, "body"),
        &json(
            r#"{
                "email": "<string:email>",
                "name": "<string>",
                "nickname": "<string>",
                "role": "member",
                "age": null,
                "address": {"line1": "<string>", "line2": "<string>", "city": "<string>"},
                "tags": []
            }"#
        )
    );
    assert_eq!(
        member(&template, "optional_paths"),
        &json(r#"["role", "age", "address", "address.line2", "tags"]"#)
    );
    assert_eq!(
        member(&template, "nullable_paths"),
        &json(r#"["nickname", "age", "address", "address.line2"]"#)
    );
    assert_eq!(member(&template, "auth_required"), &json("true"));
    assert_eq!(member(&template, "body_content_type"), &json("\"application/json\""));
    let keys: Vec<&str> = template
        .as_object()
        .unwrap()
        .entries
        .iter()
        .map(|(k, _)| k.as_str())
        .collect();
    assert_eq!(
        keys,
        vec![
            "endpoint_id",
            "method",
            "path",
            "summary",
            "path_params",
            "query_params",
            "header_params",
            "body",
            "body_schema",
            "body_content_type",
            "optional_paths",
            "nullable_paths",
            "auth_required",
        ]
    );
}

#[test]
fn template_snapshot_create_item() {
    let spec = fixture();
    let endpoint = spec.find_endpoint("create_item_items__post").unwrap();
    let template = build_template(endpoint).to_json();
    assert_eq!(
        member(&template, "body"),
        &json(
            r#"{
                "sku": "<string>",
                "price": "<number>",
                "variants": [],
                "kind": "physical",
                "parent": {}
            }"#
        )
    );
    assert_eq!(
        member(&template, "optional_paths"),
        &json(r#"["variants", "kind", "parent"]"#)
    );
    assert_eq!(member(&template, "nullable_paths"), &json(r#"["parent"]"#));
}

#[test]
fn openapi_30_nullable_and_allof_default() {
    let spec = build(&json(FASTAPI_30)).unwrap();
    assert_eq!(spec.openapi_version, "3.0.2");
    let endpoint = spec.find_endpoint("create_note_notes__post").unwrap();
    let SchemaNode::Object { fields, .. } = &endpoint.body.as_ref().unwrap().schema else {
        panic!("expected object body");
    };
    let field = |name: &str| fields.iter().find(|f| f.name == name).unwrap();

    // 3.0 `nullable: true`
    assert!(field("subtitle").nullable && !field("subtitle").required);
    // allOf single-ref + sibling default (classic FastAPI 3.0 enum-with-default)
    let priority = field("priority");
    assert_eq!(priority.default, Some(json("\"low\"")));
    assert!(matches!(
        &priority.schema,
        SchemaNode::String { enum_values: Some(v), .. } if v == &["low", "high"]
    ));
}

#[test]
fn login_endpoint_uses_form_content_type() {
    let spec = fixture();
    let login = spec.find_endpoint("login_auth_login_post").unwrap();
    assert_eq!(
        login.body.as_ref().unwrap().content_type,
        "application/x-www-form-urlencoded"
    );
}

#[test]
fn non_openapi_document_is_rejected() {
    let err = build(&json(r#"{"hello": "world"}"#)).unwrap_err();
    assert!(err.message().contains("paths"));
}

#[test]
fn shared_path_parameters_come_first() {
    let doc = json(
        r#"{"openapi": "3.1.0", "info": {"title": "T", "version": "1"}, "paths": {"/a/{id}": {
            "parameters": [{"name": "id", "in": "path", "schema": {"type": "string"}}],
            "get": {"parameters": [{"name": "X-Trace", "in": "header"}, {"name": "c", "in": "cookie"}]}
        }}}"#,
    );
    let spec = build(&doc).unwrap();
    let endpoint = spec.find_endpoint("GET /a/{id}").unwrap();
    let names: Vec<&str> = endpoint.params.iter().map(|p| p.name.as_str()).collect();
    assert_eq!(names, vec!["id", "X-Trace"]);
    assert!(endpoint.params[0].required, "path params are always required");
    assert!(!endpoint.params[1].required);
}

#[test]
fn unknown_tag_lists_the_others() {
    let err = fixture().tag("ghosts").unwrap_err();
    assert_eq!(
        err.message(),
        "unknown tag 'ghosts' (did you mean one of: users, items, auth, untagged?)"
    );
}

// ---------------------------------------------------------------- forms

#[test]
fn create_user_form_layout_and_initial_states() {
    let form = FormState::new(&fixture_endpoint("create_user_users__post"));
    // required str -> Empty
    assert_eq!(form.rows[row_index(&form, "email")].state, RowState::Empty);
    // enum with default -> Filled(default)
    assert_eq!(
        form.rows[row_index(&form, "role")].state,
        RowState::Filled(json("\"member\""))
    );
    // Optional[int] = None -> Excluded (omit; server default applies)
    assert_eq!(form.rows[row_index(&form, "age")].state, RowState::Excluded);
    // array with default [] -> materialized empty
    assert_eq!(
        form.rows[row_index(&form, "tags")].state,
        RowState::Filled(json("true"))
    );
    // optional nested object -> Excluded header with hidden children
    let address = row_index(&form, "address");
    assert_eq!(form.rows[address].kind, RowKind::ObjectHeader);
    assert_eq!(form.rows[address].state, RowState::Excluded);
    let hidden = form.hidden_mask();
    assert!(hidden[row_index(&form, "line1")]);
}

#[test]
fn shift_x_cycles_per_required_nullable_matrix() {
    let mut form = FormState::new(&fixture_endpoint("create_user_users__post"));

    // optional + nullable (age, starts Excluded): full cycle
    let age = row_index(&form, "age");
    form.cycle_exclusion(age); // Excluded -> restored (nothing saved -> Empty)
    assert_eq!(form.rows[age].state, RowState::Empty);
    form.commit_text(age, "30").unwrap();
    form.cycle_exclusion(age); // Filled -> Null, saves 30
    assert_eq!(form.rows[age].state, RowState::Null);
    form.cycle_exclusion(age); // Null -> Excluded
    assert_eq!(form.rows[age].state, RowState::Excluded);
    form.cycle_exclusion(age); // Excluded -> restored Filled(30)
    assert_eq!(form.rows[age].state, RowState::Filled(json("30")));

    // required + nullable (nickname): Filled/Empty <-> Null only
    let nickname = row_index(&form, "nickname");
    form.cycle_exclusion(nickname);
    assert_eq!(form.rows[nickname].state, RowState::Null);
    form.cycle_exclusion(nickname);
    assert_eq!(form.rows[nickname].state, RowState::Empty);

    // required, not nullable (email): no-op with hint
    let email = row_index(&form, "email");
    let hint = form.cycle_exclusion(email);
    assert!(hint.is_some());
    assert_eq!(form.rows[email].state, RowState::Empty);
}

#[test]
fn submit_blocks_on_required_empty_then_serializes() {
    let mut form = FormState::new(&fixture_endpoint("create_user_users__post"));
    let err = form.serialize().unwrap_err();
    assert_eq!(err.row, row_index(&form, "email"));

    form.commit_text(row_index(&form, "email"), "neo@matrix.io")
        .unwrap();
    form.commit_text(row_index(&form, "name"), "Neo").unwrap();
    let nickname = row_index(&form, "nickname");
    form.cycle_exclusion(nickname); // required+nullable -> send null

    let serialized = form.serialize().unwrap();
    let body = serialized.body.unwrap();
    assert_eq!(
        body,
        json(
            r#"{
                "email": "neo@matrix.io",
                "name": "Neo",
                "nickname": null,
                "role": "member",
                "tags": []
            }"#
        )
    );
    // address and age Excluded -> keys absent
    assert!(body.get("address").is_none());
    assert!(body.get("age").is_none());
}

#[test]
fn nested_object_include_and_serialize() {
    let mut form = FormState::new(&fixture_endpoint("create_user_users__post"));
    form.commit_text(row_index(&form, "email"), "a@b.c")
        .unwrap();
    form.commit_text(row_index(&form, "name"), "A").unwrap();
    form.cycle_exclusion(row_index(&form, "nickname"));

    let address = row_index(&form, "address");
    form.toggle(address); // re-include
    assert_eq!(form.rows[address].state, RowState::Filled(json("true")));
    form.commit_text(row_index(&form, "line1"), "1 Main St")
        .unwrap();
    form.commit_text(row_index(&form, "city"), "Zion").unwrap();

    let body = form.serialize().unwrap().body.unwrap();
    assert_eq!(
        member(&body, "address"),
        &json(r#"{"line1": "1 Main St", "city": "Zion"}"#)
    );
    // line2 optional+nullable, Empty -> omitted
    assert!(member(&body, "address").get("line2").is_none());
}

#[test]
fn array_append_fill_delete() {
    let mut form = FormState::new(&fixture_endpoint("create_item_items__post"));
    form.commit_text(row_index(&form, "sku"), "SKU-1").unwrap();
    form.commit_text(row_index(&form, "price"), "9.5").unwrap();

    let variants = row_index(&form, "variants");
    assert_eq!(form.rows[variants].kind, RowKind::ArrayHeader);
    form.array_append(variants);
    form.array_append(variants);

    // Fill both items: rows for item 0 and 1
    let names: Vec<usize> = form
        .rows
        .iter()
        .enumerate()
        .filter(|(_, r)| r.label == "name" && r.section == Section::Body)
        .map(|(i, _)| i)
        .collect();
    assert_eq!(names.len(), 2);
    let stocks: Vec<usize> = form
        .rows
        .iter()
        .enumerate()
        .filter(|(_, r)| r.label == "stock")
        .map(|(i, _)| i)
        .collect();
    form.commit_text(names[0], "Red").unwrap();
    form.commit_text(stocks[0], "5").unwrap();
    form.commit_text(names[1], "Blue").unwrap();
    form.commit_text(stocks[1], "7").unwrap();

    let body = form.serialize().unwrap().body.unwrap();
    assert_eq!(
        member(&body, "variants"),
        &json(r#"[{"name": "Red", "stock": 5}, {"name": "Blue", "stock": 7}]"#)
    );
    assert_eq!(member(&body, "kind"), &json("\"physical\"")); // const auto-filled

    // Delete item 0; item 1 renumbers and survives
    form.array_delete(names[0]);
    let body = form.serialize().unwrap().body.unwrap();
    assert_eq!(
        member(&body, "variants"),
        &json(r#"[{"name": "Blue", "stock": 7}]"#)
    );
    let item_roots: Vec<&FormRow> = form
        .rows
        .iter()
        .filter(|r| r.label.starts_with('['))
        .collect();
    assert_eq!(item_roots.len(), 1);
    assert_eq!(item_roots[0].label, "[0]");
}

#[test]
fn deleting_undoes_appending() {
    let mut form = FormState::new(&fixture_endpoint("create_item_items__post"));
    let variants = row_index(&form, "variants");
    form.array_append(variants);
    let before: Vec<String> = form.rows.iter().map(|r| r.label.clone()).collect();
    let states: Vec<RowState> = form.rows.iter().map(|r| r.state.clone()).collect();
    let end = form.span_end(variants);
    form.array_append(variants);
    assert_eq!(form.item_count(variants), 2);
    assert_eq!(form.rows[end].label, "[1]");
    form.array_delete(end);
    assert_eq!(form.item_count(variants), 1);
    let after: Vec<String> = form.rows.iter().map(|r| r.label.clone()).collect();
    assert_eq!(after, before);
    let restored: Vec<RowState> = form.rows.iter().map(|r| r.state.clone()).collect();
    assert_eq!(restored, states);
}

#[test]
fn params_serialize_and_required_path_param_blocks() {
    let mut form = FormState::new(&fixture_endpoint("update_user_users__user_id__patch"));
    let err = form.serialize().unwrap_err();
    assert!(err.message.contains("user_id"));

    let user_id = row_index(&form, "user_id");
    form.commit_text(user_id, "u-42").unwrap();
    let serialized = form.serialize().unwrap();
    assert_eq!(
        serialized.path_params,
        vec![("user_id".to_string(), "u-42".to_string())]
    );
    // PATCH body: both fields Optional[...] = None -> omitted entirely,
    // which is what exclude_unset-style PATCH endpoints expect.
    assert_eq!(serialized.body.unwrap(), json("{}"));
}

#[test]
fn query_param_x_excludes_instead_of_null() {
    let mut form = FormState::new(&fixture_endpoint("list_users_users__get"));
    let limit = row_index(&form, "limit");
    assert_eq!(form.rows[limit].state, RowState::Filled(json("20")));
    form.cycle_exclusion(limit); // optional, param -> Excluded (never Null)
    assert_eq!(form.rows[limit].state, RowState::Excluded);
    let serialized = form.serialize().unwrap();
    assert!(serialized.query_params.is_empty());
}

#[test]
fn hydrate_body_round_trips_editor_json() {
    let endpoint = fixture_endpoint("create_user_users__post");
    let mut form = FormState::new(&endpoint);
    let edited = json(
        r#"{
            "email": "trinity@matrix.io",
            "name": "Trinity",
            "nickname": null,
            "address": {"line1": "2 Side St", "city": "Zion"},
            "tags": ["ops", "pilot"]
        }"#,
    );
    form.hydrate_body(&endpoint, &edited);

    // role/age were absent in the edited JSON -> excluded
    assert_eq!(
        form.rows[row_index(&form, "role")].state,
        RowState::Excluded
    );
    let body = form.serialize().unwrap().body.unwrap();
    assert_eq!(body, edited);
}

#[test]
fn enum_toggle_cycles_values() {
    let mut form = FormState::new(&fixture_endpoint("create_user_users__post"));
    let role = row_index(&form, "role");
    form.toggle(role); // member -> viewer
    assert_eq!(
        form.rows[role].state,
        RowState::Filled(json("\"viewer\""))
    );
    form.toggle(role); // viewer -> admin (wraps)
    assert_eq!(form.rows[role].state, RowState::Filled(json("\"admin\"")));
}

#[test]
fn commit_text_validates_types() {
    let mut form = FormState::new(&fixture_endpoint("list_users_users__get"));
    let limit = row_index(&form, "limit");
    assert!(form.commit_text(limit, "abc").is_err());
    assert!(form.commit_text(limit, "50").is_ok());
    assert_eq!(form.rows[limit].state, RowState::Filled(json("50")));
}

#[test]
fn cursor_skips_headings_and_stops_at_the_edges() {
    let mut form = FormState::new(&fixture_endpoint("list_users_users__get"));
    assert_eq!(form.cursor, row_index(&form, "limit"));
    form.move_cursor(-1);
    assert_eq!(form.cursor, row_index(&form, "limit"));
    form.move_cursor(1);
    assert_eq!(form.cursor, row_index(&form, "cursor"));
    form.move_cursor(1);
    assert_eq!(form.cursor, row_index(&form, "cursor"));
}

#[test]
fn reincluding_restores_the_value() {
    let mut form = FormState::new(&fixture_endpoint("list_users_users__get"));
    let limit = row_index(&form, "limit");
    form.cycle_exclusion(limit);
    form.reinclude(limit);
    assert_eq!(form.rows[limit].state, RowState::Filled(json("20")));
}

#[test]
fn body_for_editing_fills_blanks() {
    let form = FormState::new(&fixture_endpoint("create_user_users__post"));
    assert_eq!(
        form.body_for_editing(),
        json(r#"{"email": "", "name": "", "nickname": "", "role": "member", "tags": []}"#)
    );
}

const NULLS: &str = r#"{"openapi": "3.1.0", "info": {"title": "T", "version": "1"}, "paths": {
    "/a": {"post": {"operationId": "a", "requestBody": {"content": {"application/json": {"schema": {
        "type": "object", "required": ["must", "none"],
        "properties": {
            "must": {"type": "string"},
            "none": {"type": "string", "default": null},
            "may": {"type": "string"},
            "list": {"type": "array", "items": {"type": "string"}},
            "nil": {"type": ["string", "null"]}
        }}}}}}}
}}"#;

#[test]
fn null_is_only_reached_by_nullable_rows() {
    let endpoint = build(&json(NULLS)).unwrap().find_endpoint("a").unwrap().clone();
    let mut form = FormState::new(&endpoint);
    let state = |form: &FormState, label: &str| form.rows[row_index(form, label)].state.clone();
    assert_eq!(state(&form, "none"), RowState::Empty);
    form.hydrate_body(
        &endpoint,
        &json(r#"{"must": null, "none": null, "may": null, "list": ["a", null], "nil": null}"#),
    );
    assert_eq!(state(&form, "must"), RowState::Empty);
    assert_eq!(state(&form, "may"), RowState::Excluded);
    assert_eq!(state(&form, "[1]"), RowState::Empty);
    assert_eq!(state(&form, "nil"), RowState::Null);
    assert!(form.serialize().is_err());
    form.hydrate_body(&endpoint, &json(r#"{"must": "m", "none": "n", "may": null, "nil": null}"#));
    assert_eq!(
        form.serialize().unwrap().body.unwrap(),
        json(r#"{"must": "m", "none": "n", "nil": null}"#)
    );
}

#[test]
fn rows_of_any_json_and_nullable_items_keep_a_null() {
    let spec = build(&json(
        r#"{"openapi": "3.1.0", "info": {"title": "T", "version": "1"}, "paths": {
            "/a": {"post": {"operationId": "a", "requestBody": {"content": {"application/json": {"schema": {
                "type": "object", "required": ["preset"],
                "properties": {
                    "any": {},
                    "either": {"oneOf": [{"type": "string"}, {"type": "integer"}]},
                    "map": {"type": "object", "additionalProperties": true},
                    "list": {"type": "array", "items": {}},
                    "names": {"type": "array", "items": {"type": ["string", "null"]}},
                    "preset": {"default": null}
                }}}}}}},
            "/b": {"post": {"operationId": "b", "requestBody": {"content": {"application/json": {"schema":
                {"anyOf": [{"type": "array", "items": {"type": "string"}}, {"type": "null"}]}}}}}}
        }}"#,
    ))
    .unwrap();
    let endpoint = spec.find_endpoint("a").unwrap();
    let mut form = FormState::new(endpoint);
    assert_eq!(
        form.rows[row_index(&form, "preset")].state,
        RowState::Filled(JsonValue::Null)
    );
    let edited = json(
        r#"{"any": null, "either": null, "map": null, "list": [null, 1], "names": ["a", null],
            "preset": null}"#,
    );
    form.hydrate_body(endpoint, &edited);
    assert_eq!(
        form.rows[row_index(&form, "any")].state,
        RowState::Filled(JsonValue::Null)
    );
    assert_eq!(form.serialize().unwrap().body.unwrap(), edited);
    let nulls: Vec<&FormRow> = form.rows.iter().filter(|r| r.state == RowState::Null).collect();
    assert_eq!(nulls.len(), 1);
    assert_eq!(nulls[0].label, "[1]");
    assert!(nulls[0].nullable);

    let endpoint = spec.find_endpoint("b").unwrap();
    let mut form = FormState::new(endpoint);
    form.hydrate_body(endpoint, &JsonValue::Null);
    assert_eq!(form.serialize().unwrap().body, Some(JsonValue::Null));
}

#[test]
fn numbers_that_are_not_finite_are_no_numbers() {
    let mut form = FormState::new(&fixture_endpoint("create_item_items__post"));
    let price = row_index(&form, "price");
    for text in ["inf", "NaN", "1e999", "nine"] {
        assert_eq!(form.commit_text(price, text).unwrap_err(), "not a number");
    }
    assert_eq!(form.rows[price].state, RowState::Empty);
    form.commit_text(price, " 9.50 ").unwrap();
    assert_eq!(form.rows[price].state, RowState::Filled(json("9.5")));
}

#[test]
fn only_required_blanks_are_filled_for_editing() {
    let endpoint = build(&json(NULLS)).unwrap().find_endpoint("a").unwrap().clone();
    let form = FormState::new(&endpoint);
    assert_eq!(
        form.rows[row_index(&form, "may")].state,
        RowState::Empty
    );
    assert_eq!(form.body_for_editing(), json(r#"{"must": "", "none": ""}"#));
}

#[test]
fn deleting_takes_out_one_item() {
    let mut form = FormState::new(&fixture_endpoint("create_item_items__post"));
    let variants = row_index(&form, "variants");
    for _ in 0..3 {
        form.array_append(variants);
    }
    let roots: Vec<usize> = (0..form.rows.len())
        .filter(|i| form.rows[*i].label.starts_with('['))
        .collect();
    let names: Vec<usize> = roots.iter().map(|root| root + 1).collect();
    for (at, text) in names.iter().zip(["Red", "Green", "Blue"]) {
        form.commit_text(*at, text).unwrap();
    }
    let before = form.rows.len();
    let gap = form.span_end(roots[1]) - roots[1];
    form.array_delete(roots[1]);
    assert_eq!(form.rows.len(), before - gap);
    assert_eq!(form.item_count(variants), 2);
    let left: Vec<&str> = form
        .rows
        .iter()
        .filter(|r| r.label.starts_with('['))
        .map(|r| r.label.as_str())
        .collect();
    assert_eq!(left, vec!["[0]", "[1]"]);
    let texts: Vec<&RowState> = form
        .rows
        .iter()
        .filter(|r| r.label == "name")
        .map(|r| &r.state)
        .collect();
    assert_eq!(
        texts,
        vec![
            &RowState::Filled(json("\"Red\"")),
            &RowState::Filled(json("\"Blue\""))
        ]
    );
}

// ---------------------------------------------------------------- screens

fn fixture_bundle() -> Arc<SpecBundle> {
    Arc::new(SpecBundle {
        project: "demo".into(),
        spec: fixture(),
        origin: SpecOrigin::File,
    })
}

fn demo_config() -> ProjectsConfig {
    let mut config = ProjectsConfig::default();
    config.projects.insert(
        "demo".into(),
        ProjectConfig {
            base_url: BaseUrl::parse("http://localhost:1").unwrap(),
            spec_file: None,
            default_headers: NameMap::new(),
            auth: None,
            framework: Framework::Fastapi,
        },
    );
    config
}

fn test_ctx() -> AppCtx {
    App::start(Arc::new(demo_config()), None).ctx
}

fn key(code: KeyCode) -> KeyEvent {
    KeyEvent { code, control: false }
}

fn plain(lines: &[Line]) -> String {
    let mut out = String::new();
    for line in lines {
        for span in &line.spans {
            out.push_str(&span.text);
        }
        out.push('\n');
    }
    out
}

/// Everything that a drawing shows, as text.
fn rendered(drawing: &Drawing) -> String {
    let mut out = String::new();
    if let Some(bar) = &drawing.bar {
        out.push_str(&plain(std::slice::from_ref(bar)));
    }
    match &drawing.body {
        Body::Text { lines, .. } => out.push_str(&plain(lines)),
        Body::List { items, .. } => out.push_str(&plain(items)),
    }
    out.push_str(&plain(&drawing.info));
    out.push_str(&plain(&drawing.docs));
    out
}

#[test]
fn endpoint_list_renders_and_filters() {
    let mut screen = EndpointList::new(fixture_bundle(), Some("users".into()));
    assert!(rendered(&screen.draw()).contains("/users/{user_id}"));

    // Filter down to PATCH.
    screen.handle_key(key(KeyCode::Char('/')));
    for c in "update".chars() {
        screen.handle_key(key(KeyCode::Char(c)));
    }
    screen.handle_key(key(KeyCode::Enter));
    let text = rendered(&screen.draw());
    assert!(text.contains("PATCH"));
    assert!(!text.contains("POST"));
}

#[test]
fn form_renders_states_and_cycles_with_keys() {
    let ctx = &mut test_ctx();
    let mut screen = RequestForm::new(
        fixture_bundle(),
        fixture_endpoint("create_user_users__post"),
    );

    let text = rendered(&screen.draw(100, 28));
    assert!(text.contains("email"));
    assert!(text.contains("⊘ excluded")); // address / age
    assert!(text.contains("◂ member ▸")); // enum default

    // Type into the first field (email) via the inline editor.
    screen.handle_key(key(KeyCode::Enter), ctx);
    for c in "a@b.c".chars() {
        screen.handle_key(key(KeyCode::Char(c)), ctx);
    }
    screen.handle_key(key(KeyCode::Enter), ctx);
    let text = rendered(&screen.draw(100, 28));
    assert!(text.contains("a@b.c"));

    // Shift+X on email (required, not nullable) -> status hint, no change.
    screen.handle_key(key(KeyCode::Char('X')), ctx);
    assert!(ctx.status.as_deref().unwrap_or("").contains("required"));

    // Move to nickname (required + nullable) and null it.
    screen.handle_key(key(KeyCode::Down), ctx);
    screen.handle_key(key(KeyCode::Down), ctx);
    screen.handle_key(key(KeyCode::Char('X')), ctx);
    let text = rendered(&screen.draw(100, 28));
    assert!(text.contains("∅ null"));
}

#[test]
fn form_submit_blocks_on_missing_required_field() {
    let ctx = &mut test_ctx();
    let mut screen = RequestForm::new(
        fixture_bundle(),
        fixture_endpoint("create_user_users__post"),
    );

    let action = screen.handle_key(
        KeyEvent {
            code: KeyCode::Char('s'),
            control: true,
        },
        ctx,
    );
    assert!(matches!(action, Action::Stay));
    assert!(ctx.status.as_deref().unwrap_or("").contains("email"));
    assert!(ctx.effects.is_empty());
}

#[test]
fn response_view_renders_422_detail() {
    let ctx = &mut test_ctx();
    let mut screen = ResponseView::loading(1, fixture_bundle(), "POST".into(), "/users/".into());
    assert!(rendered(&screen.draw(ctx)).contains("loading"));

    let response = ApiResponse {
        status: 422,
        headers: vec![("content-type".into(), "application/json".into())],
        body: json(
            r#"{"detail": [{"loc": ["body", "email"], "msg": "field required", "type": "missing"}]}"#,
        ),
        body_is_json: true,
        latency_ms: 12,
        url: "http://localhost/users/".into(),
        method: "POST".into(),
    };
    screen.handle_msg(AppMsg::Response {
        request_seq: 1,
        result: Ok(response),
    });
    let text = rendered(&screen.draw(ctx));
    assert!(text.contains("422"));
    assert!(text.contains("body.email: field required"));
}

#[test]
fn endpoint_list_shows_docs_for_hovered_endpoint() {
    let mut screen = EndpointList::new(fixture_bundle(), Some("users".into()));
    // Move to POST /users/ (second row) and render.
    screen.handle_key(key(KeyCode::Down));
    let text = rendered(&screen.draw());
    assert!(text.contains("Create a new user account."));
    assert!(text.contains("201"));
    assert!(text.contains("User created"));
    assert!(text.contains("<string:uuid>")); // example 201 body
}

#[test]
fn form_docs_toggle_shows_description_and_response() {
    let ctx = &mut test_ctx();
    let mut screen = RequestForm::new(
        fixture_bundle(),
        fixture_endpoint("create_user_users__post"),
    );

    let text = rendered(&screen.draw(100, 28));
    assert!(!text.contains("example 201 body"));

    screen.handle_key(key(KeyCode::Char('i')), ctx);
    let text = rendered(&screen.draw(100, 28));
    assert!(text.contains("Create a new user account."));
    assert!(text.contains("example 201 body"));
    assert!(text.contains("<string:email>"));

    screen.handle_key(key(KeyCode::Char('i')), ctx);
    let text = rendered(&screen.draw(100, 28));
    assert!(!text.contains("example 201 body"));
}

#[test]
fn answers_to_other_requests_are_ignored() {
    let ctx = &test_ctx();
    let mut screen = ResponseView::loading(2, fixture_bundle(), "GET".into(), "/health".into());
    screen.handle_msg(AppMsg::Response {
        request_seq: 1,
        result: Err("late".into()),
    });
    assert!(rendered(&screen.draw(ctx)).contains("loading"));
    screen.handle_msg(AppMsg::Response {
        request_seq: 2,
        result: Err("refused".into()),
    });
    assert!(rendered(&screen.draw(ctx)).contains("refused"));
}

#[test]
fn response_headers_toggle() {
    let ctx = &test_ctx();
    let mut screen = ResponseView::loading(1, fixture_bundle(), "GET".into(), "/health".into());
    screen.handle_msg(AppMsg::Response {
        request_seq: 1,
        result: Ok(ApiResponse::from_parts(
            "GET".into(),
            "http://localhost/health".into(),
            200,
            vec![("x-one".into(), "1".into())],
            "line one\r\nline two".into(),
            3,
        )),
    });
    let text = rendered(&screen.draw(ctx));
    assert!(!text.contains("x-one"));
    assert!(text.contains("line one\nline two\n"));
    screen.handle_key(key(KeyCode::Char('h')));
    assert!(rendered(&screen.draw(ctx)).contains("  x-one: 1"));
}

#[test]
fn form_row_line_is_exact() {
    let mut screen = RequestForm::new(fixture_bundle(), fixture_endpoint("list_users_users__get"));
    let drawing = screen.draw(40, 10);
    let Body::Text { lines, .. } = &drawing.body else {
        panic!("expected lines");
    };
    // The dashes fill the width left by the label's bytes.
    let heading = format!("──╴query params╶{}", "─".repeat(40 - 18 - 3));
    assert_eq!(plain(&lines[0..1]), format!("{heading}\n"));
    assert_eq!(plain(&lines[1..2]), "▌ limit             20  integer\n");
    assert_eq!(plain(&drawing.info[1..2]), " limit · integer \n");
}

#[test]
fn long_forms_scroll_with_the_cursor() {
    let ctx = &mut test_ctx();
    let mut screen = RequestForm::new(
        fixture_bundle(),
        fixture_endpoint("create_user_users__post"),
    );
    screen.draw(80, 3);
    assert_eq!(screen.scroll, 0);
    for _ in 0..4 {
        screen.handle_key(key(KeyCode::Down), ctx);
    }
    let text = rendered(&screen.draw(80, 3));
    assert_eq!(screen.scroll, 3);
    assert!(text.contains("age"));
    assert!(!text.contains("email"));
}

// ---------------------------------------------------------------- the app

#[test]
fn app_walks_from_projects_to_a_request() {
    let mut app = App::start(Arc::new(demo_config()), None);
    assert!(matches!(app.handle_key(key(KeyCode::Enter)), Flow::Continue));
    assert!(matches!(&app.ctx.effects[0], Effect::LoadSpec(name) if name == "demo"));
    let bundle = fixture_bundle();
    app.handle_msg(AppMsg::SpecLoaded {
        project: "demo".into(),
        result: Ok(bundle),
    });
    assert_eq!(app.stack.len(), 2);
    assert_eq!(app.stack[1].title(), "demo — Demo Shop API v1.2.0 (File)");
    app.handle_key(key(KeyCode::Enter)); // users
    app.handle_key(key(KeyCode::Enter)); // list users
    assert_eq!(app.stack.len(), 4);
    assert_eq!(app.stack[3].title(), "projects ▸ demo ▸ GET /users/");
    app.handle_key(KeyEvent {
        code: KeyCode::Char('s'),
        control: true,
    });
    let Effect::Send { seq, project, endpoint, args } = &app.ctx.effects[1] else {
        panic!("expected a request");
    };
    assert_eq!(*seq, 1);
    assert_eq!(project, "demo");
    assert_eq!(endpoint.id, "list_users_users__get");
    assert_eq!(args.query_params, vec![("limit".to_string(), "20".to_string())]);
    assert_eq!(app.stack.len(), 5);
    // Back to the form, as it was.
    app.handle_key(key(KeyCode::Char('r')));
    assert_eq!(app.stack.len(), 4);
}

#[test]
fn q_quits_from_the_root_only() {
    let mut app = App::start(Arc::new(demo_config()), Some("demo".into()));
    assert_eq!(app.stack.len(), 2);
    assert!(matches!(app.handle_key(key(KeyCode::Char('q'))), Flow::Continue));
    assert!(matches!(app.handle_key(key(KeyCode::Esc)), Flow::Continue));
    assert_eq!(app.stack.len(), 1);
    assert!(matches!(app.handle_key(key(KeyCode::Char('q'))), Flow::Quit));
    assert!(matches!(app.handle_key(key(KeyCode::Esc)), Flow::Quit));
}

#[test]
fn modal_swallows_the_next_key() {
    let mut app = App::start(Arc::new(demo_config()), Some("ghost".into()));
    assert_eq!(app.ctx.modal.as_ref().unwrap().body, "unknown project 'ghost'");
    assert!(matches!(app.handle_key(key(KeyCode::Char('q'))), Flow::Continue));
    assert!(app.ctx.modal.is_none());
    assert!(matches!(app.handle_key(key(KeyCode::Char('q'))), Flow::Quit));
}

#[test]
fn failed_spec_load_leaves_the_tag_list() {
    let mut app = App::start(Arc::new(demo_config()), Some("demo".into()));
    app.handle_msg(AppMsg::SpecLoaded {
        project: "demo".into(),
        result: Err("down".into()),
    });
    assert_eq!(app.stack.len(), 1);
    assert_eq!(app.ctx.modal.as_ref().unwrap().body, "failed to load spec: down");
}

#[test]
fn projects_screen_logs_in_and_out_and_reloads() {
    let mut app = App::start(Arc::new(demo_config()), None);
    app.handle_msg(AppMsg::SpecLoaded {
        project: "demo".into(),
        result: Ok(fixture_bundle()),
    });
    assert!(app.ctx.specs.contains_key("demo"));
    app.handle_key(key(KeyCode::Char('l')));
    app.handle_key(key(KeyCode::Char('L')));
    assert!(matches!(&app.ctx.effects[0], Effect::Login(name) if name == "demo"));
    assert!(matches!(&app.ctx.effects[1], Effect::Logout(name) if name == "demo"));
    app.handle_key(key(KeyCode::Char('r')));
    assert!(!app.ctx.specs.contains_key("demo"));
    assert_eq!(
        app.ctx.status.as_deref(),
        Some("spec cache for 'demo' dropped")
    );
}

#[test]
fn prompts_are_answered_in_order() {
    let mut app = App::start(Arc::new(demo_config()), None);
    app.handle_msg(AppMsg::Prompt {
        label: "username".into(),
        secret: false,
    });
    app.handle_msg(AppMsg::Prompt {
        label: "password".into(),
        secret: true,
    });
    for c in "neoo".chars() {
        app.handle_key(key(KeyCode::Char(c)));
    }
    app.handle_key(key(KeyCode::Backspace));
    assert_eq!(app.ctx.prompts[0].shown(), "neo");
    app.handle_key(key(KeyCode::Enter));
    app.handle_key(key(KeyCode::Char('x')));
    assert_eq!(app.ctx.prompts[0].shown(), "•");
    app.handle_key(key(KeyCode::Esc));
    assert!(matches!(&app.ctx.effects[0], Effect::Answer(Some(text)) if text == "neo"));
    assert!(matches!(&app.ctx.effects[1], Effect::Answer(None)));
    assert!(app.ctx.prompts.is_empty());
}

#[test]
fn external_editor_round_trip() {
    let mut app = App::start(Arc::new(demo_config()), None);
    app.stack.push(Screen::Form(RequestForm::new(
        fixture_bundle(),
        fixture_endpoint("create_user_users__post"),
    )));
    let Flow::Edit(seed) = app.handle_key(key(KeyCode::Char('e'))) else {
        panic!("expected the editor");
    };
    assert_eq!(
        JsonValue::parse(&seed).unwrap(),
        json(r#"{"email": "", "name": "", "nickname": "", "role": "member", "tags": []}"#)
    );
    app.edited(Some("not json".into()));
    assert!(app
        .ctx
        .modal
        .take()
        .unwrap()
        .body
        .starts_with("editor result is not valid JSON: "));
    app.edited(Some(r#"{"email": "a@b.c", "name": "A", "nickname": null}"#.into()));
    assert_eq!(app.ctx.status.as_deref(), Some("body updated from editor"));
    app.handle_key(KeyEvent {
        code: KeyCode::Char('s'),
        control: true,
    });
    let Effect::Send { args, .. } = &app.ctx.effects[0] else {
        panic!("expected a request");
    };
    assert_eq!(
        args.body,
        Some(json(r#"{"email": "a@b.c", "name": "A", "nickname": null}"#))
    );
}

// ---------------------------------------------------------------- commands

#[test]
fn projects_add_list_remove_round_trip() {
    let mut config = ProjectsConfig::default();
    let (added, rest) = projects_cmd(
        ProjectsCmd::Add {
            name: "demo".into(),
            base_url: BaseUrl::parse("http://localhost:9").unwrap(),
            spec_file: None,
            headers: vec!["X-Tenant: dev".into(), "A:1".into(), "X-Tenant:prod".into()],
        },
        &mut config,
        "projects.toml",
    )
    .unwrap();
    assert_eq!(rest, Aftermath::Save);
    assert_eq!(added.exit_code, 0);
    assert_eq!(
        added.human,
        "added project 'demo'. Configure auth by editing projects.toml"
    );
    let headers = config.projects.get("demo").unwrap().default_headers.entries();
    assert_eq!(
        headers,
        &vec![
            ("A".to_string(), "1".to_string()),
            ("X-Tenant".to_string(), "prod".to_string())
        ]
    );

    let (listed, rest) =
        projects_cmd(ProjectsCmd::List, &mut config, "projects.toml").unwrap();
    assert_eq!(rest, Aftermath::Nothing);
    let printed = print_result(true, Ok(listed));
    let envelope = JsonValue::parse(&printed.out.unwrap()).unwrap();
    assert_eq!(member(&envelope, "ok"), &json("true"));
    assert_eq!(
        envelope.pointer("/data/0/name").unwrap(),
        &json("\"demo\"")
    );

    let (removed, rest) = projects_cmd(
        ProjectsCmd::Remove { name: "demo".into() },
        &mut config,
        "projects.toml",
    )
    .unwrap();
    assert_eq!(rest, Aftermath::SaveAndForget("demo".into()));
    assert_eq!(removed.exit_code, 0);
    assert_eq!(config.projects.len(), 0);
    assert!(projects_cmd(
        ProjectsCmd::Remove { name: "demo".into() },
        &mut config,
        "projects.toml"
    )
    .is_err());
}

#[test]
fn duplicate_projects_and_bad_headers_are_refused() {
    let mut config = demo_config();
    let duplicate = projects_cmd(
        ProjectsCmd::Add {
            name: "demo".into(),
            base_url: BaseUrl::parse("http://x").unwrap(),
            spec_file: None,
            headers: vec!["no colon".into()],
        },
        &mut config,
        "f",
    )
    .unwrap_err();
    assert_eq!(duplicate.message(), "project 'demo' already exists");
    let bad = projects_cmd(
        ProjectsCmd::Add {
            name: "other".into(),
            base_url: BaseUrl::parse("http://x").unwrap(),
            spec_file: None,
            headers: vec!["no colon".into()],
        },
        &mut config,
        "f",
    )
    .unwrap_err();
    assert_eq!(bad.message(), "invalid header 'no colon'");
    assert_eq!(config.projects.len(), 1);
    // A config with a fault is not saved.
    let misnamed = projects_cmd(
        ProjectsCmd::Add {
            name: "a/b".into(),
            base_url: BaseUrl::parse("http://x").unwrap(),
            spec_file: None,
            headers: vec![],
        },
        &mut config,
        "f",
    )
    .unwrap_err();
    assert_eq!(
        misnamed.message(),
        "invalid value for projects.a/b: project names must be alphanumeric plus '-' or '_'"
    );
}

#[test]
fn unknown_project_exits_1_with_kind() {
    let config = ProjectsConfig::default();
    let err = hitpoint::config::project(&config, "ghost").unwrap_err();
    let printed = print_result(true, Err(HitError::Config(err)));
    assert_eq!(printed.exit_code, 1);
    let envelope = JsonValue::parse(&printed.out.unwrap()).unwrap();
    assert_eq!(member(&envelope, "ok"), &json("false"));
    assert_eq!(
        envelope.pointer("/error/kind").unwrap(),
        &json("\"unknown_project\"")
    );
}

#[test]
fn tags_endpoints_template_from_live_spec() {
    let spec = fixture();
    let tags = tags_cmd(&spec);
    let names: Vec<&str> = tags
        .data
        .as_array()
        .unwrap()
        .iter()
        .map(|t| t.get("name").unwrap().as_str().unwrap())
        .collect();
    assert_eq!(names, vec!["users", "items", "auth", "untagged"]);
    assert!(tags
        .human
        .starts_with("users                      4 endpoints  User management\nitems"));

    let users = endpoints_cmd(&spec, Some("users"), None).unwrap();
    assert_eq!(users.data.as_array().unwrap().len(), 4);
    let health = endpoints_cmd(&spec, None, Some("health")).unwrap();
    assert_eq!(health.data.as_array().unwrap().len(), 1);
    assert_eq!(
        health.human,
        "GET     /health                                  Health"
    );
    assert!(endpoints_cmd(&spec, Some("ghosts"), None).is_err());

    let template = template_cmd(&spec, "POST /users/").unwrap();
    assert_eq!(
        member(&template.data, "endpoint_id"),
        &json("\"create_user_users__post\"")
    );
    assert_eq!(
        template.data.pointer("/body/role").unwrap(),
        &json("\"member\"")
    );
    assert!(member(&template.data, "nullable_paths")
        .as_array()
        .unwrap()
        .iter()
        .any(|p| p == &json("\"nickname\"")));
}

#[test]
fn search_ignores_case() {
    let spec = fixture();
    let found = select_endpoints(&spec, None, Some("CREATE")).unwrap();
    let ids: Vec<&str> = found.iter().map(|e| e.id.as_str()).collect();
    assert_eq!(ids, vec!["create_user_users__post", "create_item_items__post"]);
}

fn run_args(endpoint: &str, body: Option<&str>) -> RunArgs {
    RunArgs {
        project: "demo".into(),
        endpoint: endpoint.into(),
        body: body.map(String::from),
        path_params: vec![],
        query: vec![],
        headers: vec![],
        no_auth: false,
        allow_error: false,
    }
}

#[test]
fn run_post_with_body_query_and_path_params() {
    let spec = fixture();
    let endpoint = spec
        .find_endpoint("update_user_users__user_id__patch")
        .unwrap();
    let mut args = run_args(&endpoint.id, Some(r#"{"name": "Neo"}"#));
    args.path_params = vec!["user_id=u-0".into(), " user_id =u-1".into()];
    args.query = vec!["limit=10".into(), "q=a=b".into()];
    args.headers = vec!["X-Debug: 1".into()];
    let BodySource::Inline(raw) = body_source(args.body.as_deref().unwrap()) else {
        panic!("expected inline JSON");
    };
    let body = parse_body(&raw).unwrap();
    let request = request_args(&args, Some(body)).unwrap();
    let url = hitpoint::http::build_url("http://localhost:1/", endpoint, &request).unwrap();
    assert_eq!(url, "http://localhost:1/users/u-1");
    let config = demo_config();
    let project = config.projects.get("demo").unwrap();
    let outgoing =
        hitpoint::http::outgoing(project, endpoint, &request, &url, Some("t".into())).unwrap();
    assert_eq!(outgoing.method, "PATCH");
    assert_eq!(outgoing.bearer.as_deref(), Some("t"));
    assert_eq!(
        outgoing.query,
        vec![
            ("limit".to_string(), "10".to_string()),
            ("q".to_string(), "a=b".to_string())
        ]
    );
    let Payload::Json(sent) = &outgoing.payload else {
        panic!("expected JSON");
    };
    assert_eq!(sent.to_text(), r#"{"name":"Neo"}"#);

    let response = ApiResponse::from_parts(
        "PATCH".into(),
        url,
        200,
        vec![],
        r#"{"id": "u-1"}"#.into(),
        7,
    );
    let output = run_cmd(&response, Framework::Fastapi, false);
    assert_eq!(output.exit_code, 0);
    assert_eq!(member(&output.data, "status"), &json("200"));
    assert_eq!(output.data.pointer("/body/id").unwrap(), &json("\"u-1\""));
    assert_eq!(
        output.human,
        "PATCH http://localhost:1/users/u-1 -> 200 (7 ms)\n\n{\n  \"id\": \"u-1\"\n}"
    );
}

#[test]
fn run_422_maps_to_exit_5_and_allow_error_to_0() {
    let response = ApiResponse::from_parts(
        "POST".into(),
        "http://x/items/".into(),
        422,
        vec![],
        r#"{"detail": [{"loc": ["body", "sku"], "msg": "field required", "type": "missing"}]}"#
            .into(),
        1,
    );
    let output = run_cmd(&response, Framework::Fastapi, false);
    assert_eq!(output.exit_code, 5);
    assert!(output
        .human
        .starts_with("POST http://x/items/ -> 422 (1 ms)\n  ! body.sku: field required\n\n"));
    let printed = print_result(true, Ok(output));
    let envelope = JsonValue::parse(&printed.out.unwrap()).unwrap();
    assert_eq!(
        member(&envelope, "ok"),
        &json("true"),
        "HTTP errors are successful invocations"
    );
    assert_eq!(envelope.pointer("/data/status").unwrap(), &json("422"));
    assert_eq!(run_cmd(&response, Framework::Fastapi, true).exit_code, 0);

    let failing = ApiResponse::from_parts("GET".into(), "u".into(), 503, vec![], "".into(), 1);
    let output = run_cmd(&failing, Framework::Fastapi, false);
    assert_eq!(output.exit_code, 6);
    assert_eq!(output.human, "GET u -> 503 (1 ms)");
}

#[test]
fn unknown_endpoint_exits_2_with_suggestions() {
    let err = template_cmd(&fixture(), "create_user").unwrap_err();
    let printed = print_result(true, Err(err));
    assert_eq!(printed.exit_code, 2);
    let envelope = JsonValue::parse(&printed.out.unwrap()).unwrap();
    assert_eq!(
        envelope.pointer("/error/kind").unwrap(),
        &json("\"unknown_endpoint\"")
    );
    assert!(envelope
        .pointer("/error/message")
        .unwrap()
        .as_str()
        .unwrap()
        .contains("create_user_users__post"));
}

#[test]
fn arguments_at_fault_are_named() {
    let mut args = run_args("x", None);
    args.query = vec!["novalue".into()];
    args.headers = vec!["nocolon".into()];
    let err = request_args(&args, None).unwrap_err();
    assert_eq!(
        err.message(),
        "invalid request body: expected name=value, got 'novalue'"
    );
    args.query = vec![];
    let err = request_args(&args, None).unwrap_err();
    assert_eq!(err.message(), "invalid header 'nocolon'");
    assert_eq!(
        parse_kv(" a = b ").unwrap(),
        ("a".to_string(), " b ".to_string())
    );
    assert_eq!(
        parse_header(" A :  b:c ").unwrap(),
        ("A".to_string(), "b:c".to_string())
    );
    assert!(parse_body("{").is_err());
    assert!(matches!(body_source("-"), BodySource::Stdin));
    assert!(matches!(body_source("@f.json"), BodySource::File(path) if path == "f.json"));
}

#[test]
fn refresh_reports_the_counts() {
    let output = refresh_cmd("demo", &fixture());
    assert_eq!(
        output.human,
        "refreshed 'demo': Demo Shop API v1.2.0 — 7 endpoints across 4 tags"
    );
    assert_eq!(member(&output.data, "endpoints"), &json("7"));
}

// ---------------------------------------------------------------- tools

#[test]
fn tools_answer_with_objects() {
    let projects = mcp::list_projects(&demo_config());
    assert_eq!(
        projects,
        json(r#"{"projects": [{"name": "demo", "base_url": "http://localhost:1/", "auth_type": null}]}"#)
    );
    let spec = fixture();
    assert_eq!(
        mcp::list_tags(&spec).pointer("/tags/0/endpoint_count").unwrap(),
        &json("4")
    );
    let listed = mcp::list_endpoints(&spec, Some("auth"), None).unwrap();
    assert_eq!(
        listed,
        json(
            r#"{"endpoints": [{"id": "login_auth_login_post", "method": "POST", "path": "/auth/login",
                "summary": "Login", "tags": ["auth"], "has_body": true, "auth_required": false,
                "deprecated": false}]}"#
        )
    );
    let template = mcp::get_request_template(&spec, "health_health_get").unwrap();
    assert_eq!(member(&template, "method"), &json("\"GET\""));
    let err = mcp::get_request_template(&spec, "nope").unwrap_err();
    assert_eq!(err.data, json(r#"{"kind": "unknown_endpoint"}"#));
}
