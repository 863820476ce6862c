//! What both generators share: reading JSON and YAML documents, writing
//! YAML, the files that a generator writes, and paths.
use vstd::prelude::*;
use crate::error::{ToolError, ToolErrorV, result_view};
use crate::json::{
    JFields, JVal, as_object, from_serde, number_convertible, object_fields, parse_json, parse_yaml, serializable,
    to_serde, value_view, yaml_string, yaml_text, json_text_value, yaml_text_value,
};
use crate::text::{lemma_split_join, lemma_split_nonempty, lemma_split_single, split, split_spec, text_eq};
use immutable_json::api::Value;
use immutable_json::object::Object;

verus! {

/// What a generated file holds: plain text, or a JSON document that is
/// written as YAML.
pub enum Content {
    Text(String),
    Yaml(Value),
}

/// A file to write, by its name relative to the output directory.
pub struct OutputFile {
    pub name: String,
    pub content: Content,
}

pub enum ContentV {
    Text(Seq<char>),
    Yaml(JVal),
}

pub struct FileV {
    pub name: Seq<char>,
    pub content: ContentV,
}

impl View for Content {
    type V = ContentV;

    open spec fn view(&self) -> ContentV {
        match self {
            Content::Text(t) => ContentV::Text(t@),
            Content::Yaml(v) => ContentV::Yaml(value_view(*v)),
        }
    }
}

impl View for OutputFile {
    type V = FileV;

    open spec fn view(&self) -> FileV {
        FileV { name: self.name@, content: self.content@ }
    }
}

pub open spec fn file_views(s: Seq<OutputFile>) -> Seq<FileV> {
    Seq::new(s.len(), |i: int| s[i]@)
}

/// The path of a file in a directory, as `PathBuf::push` forms it on Unix:
/// an absolute file name replaces the directory, and a separator is put
/// between the two where the directory does not end with one.
pub open spec fn path_spec(directory: Seq<char>, filename: Seq<char>) -> Seq<char> {
    if filename.len() > 0 && filename[0] == '/' {
        filename
    } else if directory.len() == 0 || directory.last() == '/' {
        directory + filename
    } else {
        directory + "/"@ + filename
    }
}

/// The path of a file in a directory.
pub fn path(directory: &str, filename: &str) -> (res: String)
    ensures
        res@ == path_spec(directory@, filename@),
{
    let flen = filename.unicode_len();
    if flen > 0 && filename.get_char(0) == '/' {
        return String::from_str(filename);
    }
    let dlen = directory.unicode_len();
    let mut res = String::from_str(directory);
    if dlen > 0 && directory.get_char(dlen - 1) != '/' {
        res.append("/");
    }
    res.append(filename);
    res
}

/// The object in a JSON text: the error of the parser where it is no JSON,
/// and `JsonObject` where it is JSON but no object.
pub open spec fn json_object_spec(text: Seq<char>) -> Result<JFields, ToolErrorV> {
    match json_text_value(text) {
        None => Err(ToolErrorV::Json),
        Some(JVal::Obj(m)) => Ok(m),
        Some(_) => Err(ToolErrorV::JsonObject),
    }
}

/// Reads the JSON object in a text.
pub fn read_json(text: &str) -> (res: Result<Object, ToolError>)
    ensures
        result_view(res, |o: Object| object_fields(o)) == json_object_spec(text@),
{
    let value = match parse_json(text) {
        Ok(v) => v,
        Err(e) => {
            return Err(ToolError::Json(e));
        },
    };
    match as_object(&value) {
        Some(o) => Ok(o),
        None => Err(ToolError::JsonObject),
    }
}

/// The object in a YAML text: the error of the parser where it is no YAML
/// document, and `JsonObject` where it holds no mapping.
pub open spec fn yaml_object_spec(text: Seq<char>) -> Result<JFields, ToolErrorV> {
    match yaml_text_value(text) {
        None => Err(ToolErrorV::Yaml),
        Some(JVal::Obj(m)) => Ok(m),
        Some(_) => Err(ToolErrorV::JsonObject),
    }
}

/// Reads the object in a YAML text.
pub fn read_yaml(text: &str) -> (res: Result<Object, ToolError>)
    ensures
        result_view(res, |o: Object| object_fields(o)) == yaml_object_spec(text@),
{
    let yaml = match parse_yaml(text) {
        Ok(v) => v,
        Err(e) => {
            return Err(ToolError::Yaml(e));
        },
    };
    let value = match from_serde(&yaml) {
        Some(v) => v,
        None => {
            return Err(ToolError::JsonObject);
        },
    };
    match as_object(&value) {
        Some(o) => Ok(o),
        None => Err(ToolError::JsonObject),
    }
}

/// How a template is written.
pub enum TemplateFormat {
    Json,
    Yaml,
}

/// The extension of a file name: what follows the last dot of its last
/// segment, where that dot does not start the segment.
pub open spec fn extension_of(segment: Seq<char>) -> Option<Seq<char>> {
    let pieces = split_spec(segment, '.');
    if pieces.len() >= 2 && !(pieces.len() == 2 && pieces[0].len() == 0) {
        Some(pieces.last())
    } else {
        None
    }
}

/// The last of some pieces of a path that names something: one that is
/// neither empty nor `.`.
pub open spec fn last_named(pieces: Seq<Seq<char>>) -> Option<Seq<char>>
    decreases pieces.len(),
{
    if pieces.len() == 0 {
        None
    } else if pieces.last().len() == 0 || pieces.last() == "."@ {
        last_named(pieces.drop_last())
    } else {
        Some(pieces.last())
    }
}

/// The file name of a path, as `Path::file_name` gives it on Unix: its last
/// component once empty and `.` components are left out, and none where
/// there is no such component or it is `..`.
pub open spec fn file_name_spec(path: Seq<char>) -> Option<Seq<char>> {
    match last_named(split_spec(path, '/')) {
        Some(n) => if n == ".."@ {
            None
        } else {
            Some(n)
        },
        None => None,
    }
}

/// The format of a template, from the extension of its file name: JSON for
/// `json` or a file named `.json`, YAML for `yaml` and `yml`, and the error
/// `JsonOrYaml` for any other, and where the path has no file name.
pub open spec fn template_format_spec(filename: Seq<char>) -> Result<bool, ToolErrorV> {
    match file_name_spec(filename) {
        None => Err(ToolErrorV::JsonOrYaml),
        Some(segment) => if segment == ".json"@ || extension_of(segment) == Some("json"@) {
            Ok(true)
        } else if extension_of(segment) == Some("yaml"@) || extension_of(segment) == Some("yml"@) {
            Ok(false)
        } else {
            Err(ToolErrorV::JsonOrYaml)
        },
    }
}

/// A text that splits into one piece is that piece.
proof fn lemma_split_one(s: Seq<char>, sep: char)
    requires
        split_spec(s, sep).len() == 1,
    ensures
        split_spec(s, sep)[0] == s,
    decreases s.len(),
{
    if s.len() == 0 {
        assert(s =~= Seq::<char>::empty());
    } else {
        lemma_split_nonempty(s.drop_last(), sep);
        if s.last() != sep {
            lemma_split_one(s.drop_last(), sep);
            assert(s.drop_last().push(s.last()) =~= s);
        }
    }
}

/// The extension of a name is what follows its last dot, whatever comes
/// before that dot, dots included, as long as something does.
pub proof fn law_extension_after_last_dot(stem: Seq<char>, e: Seq<char>)
    requires
        stem.len() > 0,
        !e.contains('.'),
    ensures
        extension_of(stem.push('.') + e) == Some(e),
{
    lemma_split_join(stem, e, '.');
    lemma_split_single(e, '.');
    lemma_split_nonempty(stem, '.');
    let a = split_spec(stem, '.');
    let pieces = split_spec(stem.push('.') + e, '.');
    assert(pieces =~= a + seq![e]);
    if a.len() == 1 {
        lemma_split_one(stem, '.');
        assert(pieces[0] == stem);
    }
}

/// A name without a slash that is neither `.` nor `..`, after any directory,
/// is the file name of the path.
proof fn lemma_file_name_last(dir: Seq<char>, name: Seq<char>)
    requires
        name.len() > 0,
        !name.contains('/'),
        name != "."@,
        name != ".."@,
    ensures
        file_name_spec(name) == Some(name),
        file_name_spec(dir.push('/') + name) == Some(name),
{
    lemma_split_single(name, '/');
    assert(split_spec(name, '/').drop_last() =~= Seq::<Seq<char>>::empty());
    lemma_split_join(dir, name, '/');
    let ps = split_spec(dir.push('/') + name, '/');
    assert(ps.last() == name);
}

/// A name made of a stem without a slash and a suffix `.<e>` has no slash and
/// is neither `.` nor `..`.
proof fn lemma_plain_name(stem: Seq<char>, e: Seq<char>)
    requires
        stem.len() > 0,
        !stem.contains('/'),
        !e.contains('/'),
        e.len() > 0,
    ensures
        !(stem.push('.') + e).contains('/'),
        stem.push('.') + e != "."@,
        stem.push('.') + e != ".."@,
{
    reveal_strlit(".");
    reveal_strlit("..");
    let n = stem.push('.') + e;
    assert(n.len() >= 3);
    if n.contains('/') {
        let i = choose|i: int| 0 <= i < n.len() && n[i] == '/';
        if i < stem.len() {
            assert(stem[i] == '/');
        } else if i == stem.len() {
            assert(n[i] == '.');
        } else {
            assert(e[i - stem.len() - 1] == '/');
        }
    }
}

/// The format of a template follows the last dot of its file name, after any
/// directory: `<stem>.yaml` and `<stem>.yml` are YAML, `<stem>.json` is JSON,
/// whatever dots the stem holds.
pub proof fn law_template_format_by_extension(dir: Seq<char>, stem: Seq<char>)
    requires
        stem.len() > 0,
        !stem.contains('/'),
    ensures
        template_format_spec(stem + ".yaml"@) == Ok::<bool, ToolErrorV>(false),
        template_format_spec(stem + ".yml"@) == Ok::<bool, ToolErrorV>(false),
        template_format_spec(stem + ".json"@) == Ok::<bool, ToolErrorV>(true),
        template_format_spec(dir + "/"@ + stem + ".yaml"@) == Ok::<bool, ToolErrorV>(false),
        template_format_spec(dir + "/"@ + stem + ".yml"@) == Ok::<bool, ToolErrorV>(false),
        template_format_spec(dir + "/"@ + stem + ".json"@) == Ok::<bool, ToolErrorV>(true),
{
    reveal_strlit(".yaml");
    reveal_strlit(".yml");
    reveal_strlit(".json");
    reveal_strlit("yaml");
    reveal_strlit("yml");
    reveal_strlit("json");
    reveal_strlit("/");
    let exts = seq!["yaml"@, "yml"@, "json"@];
    assert forall|k: int| 0 <= k < 3 implies {
        let e = #[trigger] exts[k];
        let n = stem.push('.') + e;
        &&& file_name_spec(n) == Some(n)
        &&& file_name_spec(dir.push('/') + n) == Some(n)
        &&& extension_of(n) == Some(e)
        &&& n != ".json"@
    } by {
        let e = exts[k];
        assert(!e.contains('/') && !e.contains('.') && e.len() > 0) by {
            if e.contains('/') || e.contains('.') {
                let i = choose|i: int| 0 <= i < e.len() && (e[i] == '/' || e[i] == '.');
            }
        }
        let n = stem.push('.') + e;
        lemma_plain_name(stem, e);
        lemma_file_name_last(dir, n);
        law_extension_after_last_dot(stem, e);
        assert(n.len() >= 4);
        reveal_strlit(".json");
        assert(n != ".json"@) by {
            if n == ".json"@ {
                assert(n.len() == 5);
                assert(e.len() >= 3);
                assert(stem.len() == 5 - 1 - e.len());
                assert(e == "json"@ || stem.len() >= 1);
                assert(n[stem.len() as int] == '.');
                assert(".json"@[stem.len() as int] == '.');
            }
        }
    }
    assert(stem + ".yaml"@ =~= stem.push('.') + exts[0]);
    assert(stem + ".yml"@ =~= stem.push('.') + exts[1]);
    assert(stem + ".json"@ =~= stem.push('.') + exts[2]);
    assert(dir + "/"@ + stem + ".yaml"@ =~= dir.push('/') + (stem.push('.') + exts[0]));
    assert(dir + "/"@ + stem + ".yml"@ =~= dir.push('/') + (stem.push('.') + exts[1]));
    assert(dir + "/"@ + stem + ".json"@ =~= dir.push('/') + (stem.push('.') + exts[2]));
}

/// The index of the last of the first `n` pieces that names something.
fn last_named_index(path: &str, pieces: &Vec<String>, n: usize) -> (res: Option<usize>)
    requires
        pieces@.len() == split_spec(path@, '/').len(),
        forall|i: int| 0 <= i < pieces@.len() ==> #[trigger] pieces@[i]@ == split_spec(path@, '/')[i],
        n <= pieces@.len(),
    ensures
        match res {
            Some(k) => k < n && last_named(split_spec(path@, '/').take(n as int)) == Some(split_spec(path@, '/')[k as int]),
            None => last_named(split_spec(path@, '/').take(n as int)) is None,
        },
    decreases n,
{
    if n == 0 {
        return None;
    }
    let ghost ps = split_spec(path@, '/');
    proof {
        assert(ps.take(n as int).drop_last() =~= ps.take(n - 1));
        assert(ps.take(n as int).last() == pieces@[n - 1]@);
    }
    let piece = &pieces[n - 1];
    if piece.unicode_len() == 0 || text_eq(piece.as_str(), ".") {
        last_named_index(path, pieces, n - 1)
    } else {
        Some(n - 1)
    }
}

/// The file name of a path, as `Path::file_name` gives it on Unix.
pub fn file_name(path: &str) -> (res: Option<String>)
    ensures
        match res {
            Some(n) => file_name_spec(path@) == Some(n@),
            None => file_name_spec(path@) is None,
        },
{
    let pieces = split(path, '/');
    match last_named_index(path, &pieces, pieces.len()) {
        Some(k) => {
            proof {
                assert(split_spec(path@, '/').take(pieces@.len() as int) =~= split_spec(path@, '/'));
            }
            if text_eq(pieces[k].as_str(), "..") {
                None
            } else {
                Some(pieces[k].clone())
            }
        },
        None => {
            proof {
                assert(split_spec(path@, '/').take(pieces@.len() as int) =~= split_spec(path@, '/'));
            }
            None
        },
    }
}

/// Decides how a template is written from its file name.
pub fn template_format(filename: &str) -> (res: Result<TemplateFormat, ToolError>)
    ensures
        result_view(res, |f: TemplateFormat| f is Json) == template_format_spec(filename@),
{
    let segment = match file_name(filename) {
        Some(n) => n,
        None => {
            return Err(ToolError::JsonOrYaml);
        },
    };
    let pieces = split(segment.as_str(), '.');
    let has_extension = pieces.len() >= 2 && !(pieces.len() == 2 && pieces[0].unicode_len() == 0);
    let is_json = text_eq(segment.as_str(), ".json")
        || (has_extension && text_eq(pieces[pieces.len() - 1].as_str(), "json"));
    let is_yaml = has_extension && (text_eq(pieces[pieces.len() - 1].as_str(), "yaml")
        || text_eq(pieces[pieces.len() - 1].as_str(), "yml"));
    if is_json {
        Ok(TemplateFormat::Json)
    } else if is_yaml {
        Ok(TemplateFormat::Yaml)
    } else {
        Err(ToolError::JsonOrYaml)
    }
}

/// Reads a template in the format that its file name gives.
pub fn read_template(filename: &str, text: &str) -> (res: Result<Object, ToolError>)
    ensures
        result_view(res, |o: Object| object_fields(o)) == match template_format_spec(filename@) {
            Ok(true) => json_object_spec(text@),
            Ok(false) => yaml_object_spec(text@),
            Err(e) => Err(e),
        },
{
    match template_format(filename) {
        Ok(TemplateFormat::Json) => read_json(text),
        Ok(TemplateFormat::Yaml) => read_yaml(text),
        Err(e) => Err(e),
    }
}

/// The YAML text of a JSON value; it always succeeds. For a value whose
/// numbers `serde_json` can hold the text is the one that `serde_yaml` writes
/// for it. A value that is itself a number that `serde_json` cannot hold is
/// not accepted.
pub fn to_yaml(value: &Value) -> (res: Result<String, ToolError>)
    requires
        number_convertible(value_view(*value)),
    ensures
        res is Ok,
        serializable(value_view(*value)) ==> (res matches Ok(s) ==> s@ == yaml_text(value_view(*value))),
{
    let converted = match to_serde(value) {
        Ok(v) => v,
        Err(e) => {
            return Err(ToolError::Json(e));
        },
    };
    match yaml_string(&converted) {
        Ok(s) => Ok(s),
        Err(e) => Err(ToolError::Yaml(e)),
    }
}

/// The text of a generated file: plain text as it is, a document as YAML.
pub fn render(content: &Content) -> (res: Result<String, ToolError>)
    requires
        content@ matches ContentV::Yaml(v) ==> number_convertible(v),
    ensures
        match content@ {
            ContentV::Text(t) => res matches Ok(s) && s@ == t,
            ContentV::Yaml(v) => {
                &&& res is Ok
                &&& serializable(v) ==> (res matches Ok(s) ==> s@ == yaml_text(v))
            },
        },
{
    match content {
        Content::Text(t) => Ok(t.clone()),
        Content::Yaml(v) => to_yaml(v),
    }
}

} // verus!
