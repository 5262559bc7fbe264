use json_api::doc::{Data, Document, ErrorObject, Identifier, JsonApi, Object, PrimaryData, Version};
use json_api::query::Query;
use json_api::value::{Key, OrderedSet, Value};
use json_api::view::{Context, Render};
use json_api::value::{Path, Segment, Stringify};
use json_api::{has_many, has_one, to_doc, Error, Resource};

struct User {
    id: u64,
    name: String,
}

impl Resource for User {
    fn kind() -> Key {
        Key::from_str("users").unwrap()
    }

    fn id(&self) -> String {
        self.id.to_string()
    }

    fn to_ident(&self, _ctx: &Context) -> Result<Identifier, Error> {
        Ok(Identifier::new(Self::kind(), self.id()))
    }

    fn to_object(&self, ctx: &Context, _included: &mut OrderedSet<Object>) -> Result<Object, Error> {
        let mut obj = Object::new(Self::kind(), self.id());
        if ctx.field("name") {
            let key = Key::from_str("name")?;
            obj.attributes.insert(key, Value::String(self.name.clone()));
        }
        Ok(obj)
    }
}

struct Thread {
    id: u64,
    comments: Vec<User>,
}

impl Resource for Thread {
    fn kind() -> Key {
        Key::from_str("threads").unwrap()
    }

    fn id(&self) -> String {
        self.id.to_string()
    }

    fn to_ident(&self, _ctx: &Context) -> Result<Identifier, Error> {
        Ok(Identifier::new(Self::kind(), self.id()))
    }

    fn to_object(&self, ctx: &Context, included: &mut OrderedSet<Object>) -> Result<Object, Error> {
        let mut obj = Object::new(Self::kind(), self.id());
        if ctx.field("comments") {
            let key = Key::from_str("comments")?;
            let rel = has_many(ctx, included, &key, &self.comments)?;
            obj.relationships.insert(key, rel);
        }
        Ok(obj)
    }
}

struct Article {
    id: u64,
    title: String,
    body: String,
    author: User,
    editor: User,
}

impl Resource for Article {
    fn kind() -> Key {
        Key::from_str("articles").unwrap()
    }

    fn id(&self) -> String {
        self.id.to_string()
    }

    fn to_ident(&self, _ctx: &Context) -> Result<Identifier, Error> {
        Ok(Identifier::new(Self::kind(), self.id()))
    }

    fn to_object(&self, ctx: &Context, included: &mut OrderedSet<Object>) -> Result<Object, Error> {
        let mut obj = Object::new(Self::kind(), self.id());
        if ctx.field("title") {
            obj.attributes
                .insert(Key::from_str("title")?, Value::String(self.title.clone()));
        }
        if ctx.field("body") {
            obj.attributes
                .insert(Key::from_str("body")?, Value::String(self.body.clone()));
        }
        if ctx.field("author") {
            let key = Key::from_str("author")?;
            let rel = has_one(ctx, included, &key, Some(&self.author))?;
            obj.relationships.insert(key, rel);
        }
        if ctx.field("editor") {
            let key = Key::from_str("editor")?;
            let rel = has_one(ctx, included, &key, Some(&self.editor))?;
            obj.relationships.insert(key, rel);
        }
        Ok(obj)
    }
}

fn article() -> Article {
    Article {
        id: 1,
        title: String::from("Rigorous Parsing"),
        body: String::from("Validate, then normalize."),
        author: User { id: 9, name: String::from("Kate") },
        editor: User { id: 9, name: String::from("Kate") },
    }
}

fn article_with_distinct_editor() -> Article {
    Article { editor: User { id: 7, name: String::from("Sam") }, ..article() }
}

#[test]
fn render_deduplicates_included_resources() {
    // The same logical user is reachable by two distinct relationship
    // paths, and the query asks for both: it must be included exactly once.
    let query = Query::builder()
        .includes("author")
        .includes("editor")
        .build()
        .unwrap();
    let doc: Document<Object> = to_doc(&article(), Some(&query)).unwrap();
    match doc {
        Document::Success { included, .. } => {
            assert_eq!(included.len(), 1);
            assert_eq!(included.item_at(0).id, "9");
            assert_eq!(included.item_at(0).kind.as_str(), "users");
        },
        Document::Failure { .. } => panic!("expected a successful document"),
    }
}

#[test]
fn render_gates_fields_on_sparse_fieldsets() {
    // Only `title` is allowed for articles: `body` and the relationships
    // must not be emitted.
    let query = Query::builder()
        .fields("articles", &["title"])
        .build()
        .unwrap();
    let doc: Document<Object> = to_doc(&article(), Some(&query)).unwrap();
    match doc {
        Document::Success { data, .. } => match data {
            Data::Member(member) => {
                let obj = member.unwrap();
                assert_eq!(obj.attributes.len(), 1);
                assert_eq!(obj.attributes.key_at(0).as_str(), "title");
                assert!(obj.relationships.is_empty());
            },
            Data::Collection(_) => panic!("expected member data"),
        },
        Document::Failure { .. } => panic!("expected a successful document"),
    }
}

#[test]
fn render_without_inclusion_keeps_identifiers_only() {
    let doc: Document<Object> = to_doc(&article(), None).unwrap();
    match doc {
        Document::Success { data, included, .. } => {
            assert!(included.is_empty());
            match data {
                Data::Member(member) => {
                    let obj = member.unwrap();
                    assert_eq!(obj.relationships.len(), 2);
                },
                Data::Collection(_) => panic!("expected member data"),
            }
        },
        Document::Failure { .. } => panic!("expected a successful document"),
    }
}

#[test]
fn flatten_of_absent_render_is_null() {
    let doc: Document<Identifier> = None::<&User>.render(None).unwrap();
    assert_eq!(doc.flatten(), Some(Value::Null));
}

#[test]
fn flatten_resolves_linkage_through_included() {
    let query = Query::builder().includes("author").build().unwrap();
    let doc: Document<Object> = to_doc(&article_with_distinct_editor(), Some(&query)).unwrap();
    let value = doc.flatten().unwrap();
    let root = value.as_object().unwrap();
    let author_key = Key::from_str("author").unwrap();
    let author = root.get(&author_key).unwrap().as_object().unwrap();
    let name_key = Key::from_str("name").unwrap();
    assert_eq!(author.get(&name_key).unwrap().as_str(), Some("Kate"));
    // The editor was not included, so its linkage degrades to the id.
    let editor_key = Key::from_str("editor").unwrap();
    assert_eq!(root.get(&editor_key).unwrap().as_str(), Some("7"));
}

#[test]
fn flatten_of_collection_render() {
    let users = vec![
        Identifier::new(Key::from_str("users").unwrap(), String::from("1")),
        Identifier::new(Key::from_str("users").unwrap(), String::from("2")),
    ];
    let doc: Document<Identifier> = users.render(None).unwrap();
    let value = doc.flatten().unwrap();
    let items = value.as_array().unwrap();
    assert_eq!(items.len(), 2);
    assert_eq!(items[0].as_str(), Some("1"));
    assert_eq!(items[1].as_str(), Some("2"));
}

#[test]
fn has_many_expands_and_deduplicates() {
    let thread = Thread {
        id: 3,
        comments: vec![
            User { id: 1, name: String::from("Ann") },
            User { id: 2, name: String::from("Ben") },
            User { id: 1, name: String::from("Ann") },
        ],
    };
    let query = Query::builder().includes("comments").build().unwrap();
    let doc: Document<Object> = to_doc(&thread, Some(&query)).unwrap();
    match doc {
        Document::Success { data, included, .. } => {
            // Each target appears in the linkage, but duplicates are
            // included only once.
            assert_eq!(included.len(), 2);
            match data {
                Data::Member(member) => {
                    let obj = member.unwrap();
                    let key = Key::from_str("comments").unwrap();
                    match &obj.relationships.get(&key).unwrap().data {
                        Data::Collection(idents) => assert_eq!(idents.len(), 3),
                        Data::Member(_) => panic!("expected collection linkage"),
                    }
                },
                Data::Collection(_) => panic!("expected member data"),
            }
        },
        Document::Failure { .. } => panic!("expected a successful document"),
    }
}

#[test]
fn paths_join_through_segments() {
    let posts = Key::from_str("posts").unwrap();
    let comments = Key::from_str("comments").unwrap();
    let path: Path = posts.join(&comments);
    assert_eq!(path.to_string(), "posts.comments");
    let authors = Key::from_str("authors").unwrap();
    let longer = path.join(&authors);
    assert_eq!(longer.to_string(), "posts.comments.authors");
}

#[test]
fn stringify_round_trips_text() {
    let text = String::from("hello");
    assert_eq!(text.stringify(), "hello");
    assert_eq!("hi".stringify(), "hi");
    assert_eq!("hi".to_bytes(), vec![104, 105]);
}

#[test]
fn error_object_titles_from_status() {
    let not_found = ErrorObject::new(Some(404));
    assert_eq!(not_found.status, Some(404));
    assert_eq!(not_found.title.as_deref(), Some("Not Found"));

    let unknown = ErrorObject::new(Some(599));
    assert_eq!(unknown.status, Some(599));
    assert_eq!(unknown.title, None);

    let none = ErrorObject::new(None);
    assert_eq!(none.status, None);
    assert_eq!(none.title, None);
}

#[test]
fn version_recognizes_only_one_zero() {
    assert_eq!(Version::from_str("1.0").unwrap(), Version::V1);
    assert!(Version::from_str("2.0").is_err());
    assert_eq!(Version::default().as_str(), "1.0");
    assert_eq!(JsonApi::default().version, Version::V1);
}

#[test]
fn document_is_ok_and_is_err_are_complementary() {
    let ok: Document<Identifier> = None::<Identifier>.render(None).unwrap();
    assert!(ok.is_ok());
    assert!(!ok.is_err());

    let failing: Document<Identifier> = Document::Failure {
        errors: vec![ErrorObject::new(Some(500))],
        jsonapi: JsonApi::default(),
        links: json_api::value::OrderedMap::new(),
        meta: json_api::value::OrderedMap::new(),
    };
    assert!(failing.is_err());
    assert!(!failing.is_ok());
    assert_eq!(failing.flatten(), None);
}

#[test]
fn identifier_flatten_degrades_to_id_without_inclusion() {
    let ident = Identifier::new(Key::from_str("users").unwrap(), String::from("42"));
    let included = OrderedSet::new();
    assert_eq!(ident.flatten(&included), Value::String(String::from("42")));
}
