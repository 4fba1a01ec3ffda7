//! How exports and errors are answered over HTTP.

use vstd::prelude::*;
use vstd::string::*;

use crate::error::DatastoreError;
use crate::export::{joined_members, member_text, object_text};
use crate::json::{json_quoted, text_to_json};
use crate::text::texts;
use crate::time::Timestamp;

verus! {

pub const OK: u16 = 200;

pub const NOT_MODIFIED: u16 = 304;

pub const NOT_FOUND: u16 = 404;

pub const INTERNAL_SERVER_ERROR: u16 = 500;

/// An error as a response: a status code, and a message for the body.
#[derive(Clone, Debug, PartialEq, Eq)]
pub struct HttpErrorJson {
    pub status: u16,
    pub message: String,
}

/// The status code that a datastore error is answered with.
pub open spec fn error_status(err: DatastoreError) -> u16 {
    match err {
        DatastoreError::NoSuchBucket(_) => NOT_FOUND,
        DatastoreError::BucketAlreadyExists(_) => NOT_MODIFIED,
        DatastoreError::NoSuchKey(_) => NOT_FOUND,
        DatastoreError::MpscError => INTERNAL_SERVER_ERROR,
        DatastoreError::InternalError(_) => INTERNAL_SERVER_ERROR,
        DatastoreError::Uninitialized(_) => INTERNAL_SERVER_ERROR,
        DatastoreError::OldDbVersion(_) => INTERNAL_SERVER_ERROR,
    }
}

/// The message that a datastore error is answered with.
pub open spec fn error_message(err: DatastoreError) -> Seq<char> {
    match err {
        DatastoreError::NoSuchBucket(id) => "The requested bucket '"@ + id@ + "' does not exist"@,
        DatastoreError::BucketAlreadyExists(id) => "Bucket '"@ + id@ + "' already exists"@,
        DatastoreError::NoSuchKey(key) => "The requested key(s) '"@ + key@ + "' do not exist"@,
        DatastoreError::MpscError => "Unexpected Mpsc error!"@,
        DatastoreError::InternalError(msg) => msg@,
        DatastoreError::Uninitialized(msg) => msg@,
        DatastoreError::OldDbVersion(msg) => msg@,
    }
}

fn around(before: &str, text: &str, after: &str) -> (r: String)
    ensures
        r@ == before@ + text@ + after@,
{
    let mut r = before.to_owned();
    r.append(text);
    r.append(after);
    r
}

impl HttpErrorJson {
    pub fn new(status: u16, err: String) -> (r: HttpErrorJson)
        ensures
            r.status == status,
            r.message@ == err@,
    {
        HttpErrorJson { status, message: err }
    }

    /// Whether this is the answer to a datastore error.
    pub open spec fn answers(self, err: DatastoreError) -> bool {
        self.status == error_status(err) && self.message@ == error_message(err)
    }

    /// The body of the response: a JSON object that holds the message.
    pub fn body(&self) -> (r: String)
        ensures
            r@ == object_text(seq![("message"@, json_quoted(self.message@))]),
    {
        let mut r = "{".to_owned();
        r.append(text_to_json("message").as_str());
        r.push(':');
        r.append(text_to_json(self.message.as_str()).as_str());
        r.append("}");
        proof {
            let entries = seq![("message"@, json_quoted(self.message@))];
            assert(joined_members(entries) =~= member_text(
                "message"@,
                json_quoted(self.message@),
            )) by {
                assert(entries.map_values(
                    |e: (Seq<char>, Seq<char>)| member_text(e.0, e.1),
                ) =~= seq![member_text("message"@, json_quoted(self.message@))]);
            }
            assert(r@ =~= object_text(entries));
        }
        r
    }

    /// The head of the response.
    pub fn response_head(&self) -> (head: ResponseHead)
        ensures
            head.status == self.status,
            head.content_type@ == "application/json"@,
            head.content_disposition is None,
    {
        ResponseHead {
            status: self.status,
            content_type: "application/json".to_owned(),
            content_disposition: None,
        }
    }
}

impl From<DatastoreError> for HttpErrorJson {
    /// The answer to a datastore error.
    fn from(val: DatastoreError) -> (r: HttpErrorJson)
        ensures
            r.answers(val),
    {
        match val {
            DatastoreError::NoSuchBucket(bucket_id) => HttpErrorJson::new(
                NOT_FOUND,
                around("The requested bucket '", bucket_id.as_str(), "' does not exist"),
            ),
            DatastoreError::BucketAlreadyExists(bucket_id) => HttpErrorJson::new(
                NOT_MODIFIED,
                around("Bucket '", bucket_id.as_str(), "' already exists"),
            ),
            DatastoreError::NoSuchKey(key) => HttpErrorJson::new(
                NOT_FOUND,
                around("The requested key(s) '", key.as_str(), "' do not exist"),
            ),
            DatastoreError::MpscError => HttpErrorJson::new(
                INTERNAL_SERVER_ERROR,
                "Unexpected Mpsc error!".to_owned(),
            ),
            DatastoreError::InternalError(msg) => HttpErrorJson::new(INTERNAL_SERVER_ERROR, msg),
            DatastoreError::Uninitialized(msg) => HttpErrorJson::new(INTERNAL_SERVER_ERROR, msg),
            DatastoreError::OldDbVersion(msg) => HttpErrorJson::new(INTERNAL_SERVER_ERROR, msg),
        }
    }
}

// What the answer is, `answers` says: its message is made at run time, and no
// term of the specification language is that string.
impl vstd::std_specs::convert::FromSpecImpl<DatastoreError> for HttpErrorJson {
    open spec fn obeys_from_spec() -> bool {
        false
    }

    open spec fn from_spec(v: DatastoreError) -> HttpErrorJson {
        arbitrary()
    }
}

/// The head of a response.
#[derive(Clone, Debug, PartialEq, Eq)]
pub struct ResponseHead {
    pub status: u16,
    pub content_type: String,
    pub content_disposition: Option<String>,
}

impl ResponseHead {
    /// Whether the head says that a download of a type is coming.
    pub open spec fn announces(self, content_type: Seq<char>, disposition: Seq<char>) -> bool {
        &&& self.status == OK
        &&& self.content_type@ == content_type
        &&& self.content_disposition matches Some(d) && d@ == disposition
    }
}

/// Whether a character is a control character: one of the two blocks of the
/// general category `Cc`.
pub open spec fn is_control(c: char) -> bool {
    c <= '\u{1f}' || '\u{7f}' <= c <= '\u{9f}'
}

/// Whether a character could end or split a quoted value of a header.
pub open spec fn breaks_header(c: char) -> bool {
    is_control(c) || c == '"' || c == '\\' || c == ';'
}

/// A text with every character replaced that could break a header.
pub open spec fn sanitized(s: Seq<char>) -> Seq<char> {
    s.map_values(
        |c: char|
            if breaks_header(c) {
                '_'
            } else {
                c
            },
    )
}

/// The header value of a download with a file name.
pub open spec fn attachment(filename: Seq<char>) -> Seq<char> {
    "attachment; filename=\""@ + sanitized(filename) + "\""@
}

fn could_break_header(c: char) -> (r: bool)
    ensures
        r == breaks_header(c),
{
    let code: u32 = c as u32;
    code <= 0x1f || (0x7f <= code && code <= 0x9f) || c == '"' || c == '\\' || c == ';'
}

/// Makes a text that a client supplied safe within a response header.
pub fn sanitize_header_value(value: &str) -> (r: String)
    ensures
        r@ == sanitized(value@),
{
    let mut r = String::new();
    let ghost text = value@;
    assert(r@ =~= sanitized(text.take(0)));
    for c in it: value.chars()
        invariant
            it.seq() == text,
            r@ == sanitized(text.take(it.index())),
    {
        let ghost n = it.index();
        assert(text[n] == c);
        if could_break_header(c) {
            r.push('_');
        } else {
            r.push(c);
        }
        assert(r@ =~= sanitized(text.take(n + 1)));
    }
    assert(text.take(text.len() as int) =~= text);
    r
}

/// The `Content-Disposition` of a download. The file name is quoted, so that it
/// may hold spaces.
pub fn content_disposition(filename: &str) -> (r: String)
    ensures
        r@ == attachment(filename@),
{
    around("attachment; filename=\"", sanitize_header_value(filename).as_str(), "\"")
}

/// The file name of an export: that of the bucket that was asked for, or of the
/// only one there is, or of all of them.
pub open spec fn export_name(bucket_id: Option<Seq<char>>, ids: Seq<Seq<char>>) -> Seq<char> {
    match bucket_id {
        Some(id) => "aw-bucket-export_"@ + id + ".json"@,
        None => if ids.len() == 1 {
            "aw-bucket-export_"@ + ids[0] + ".json"@
        } else {
            "aw-buckets-export.json"@
        },
    }
}

/// The view of an optional text.
pub open spec fn optional_text(s: Option<&str>) -> Option<Seq<char>> {
    match s {
        Some(s) => Some(s@),
        None => None,
    }
}

/// The `Content-Disposition` of an export.
///
/// `found` is what the datastore answered: the ids of all buckets, or of the one
/// that was asked for, or why there are none.
pub fn export_filename(
    bucket_id: Option<&str>,
    found: Result<Vec<String>, DatastoreError>,
) -> (r: Result<String, HttpErrorJson>)
    ensures
        match found {
            Ok(ids) => r matches Ok(name) && name@ == attachment(
                export_name(optional_text(bucket_id), texts(ids@)),
            ),
            Err(err) => r matches Err(answer) && answer.answers(err),
        },
{
    let ids: Vec<String> = match found {
        Ok(ids) => ids,
        Err(err) => {
            return Err(HttpErrorJson::from(err));
        },
    };
    let name = match bucket_id {
        Some(id) => Some(id.to_owned()),
        None => if ids.len() == 1 {
            Some(ids[0].clone())
        } else {
            None
        },
    };
    Ok(
        match name {
            Some(id) => content_disposition(
                around("aw-bucket-export_", id.as_str(), ".json").as_str(),
            ),
            None => content_disposition("aw-buckets-export.json"),
        },
    )
}

/// A JSON export that is ready to be sent: the handle of the datastore, the
/// bucket that was asked for, and the name of the download.
pub struct BucketsExportRocket<D> {
    pub datastore: D,
    pub bucket_id: Option<String>,
    pub filename: String,
}

impl<D> BucketsExportRocket<D> {
    /// Prepares an export. A bucket that does not exist is answered before
    /// anything is sent.
    ///
    /// `found` is what the datastore answered: the ids of all buckets, or of the
    /// one that was asked for, or why there are none.
    pub fn new(
        datastore: D,
        bucket_id: Option<&str>,
        found: Result<Vec<String>, DatastoreError>,
    ) -> (r: Result<Self, HttpErrorJson>)
        ensures
            match found {
                Ok(ids) => {
                    &&& r matches Ok(export)
                    &&& export.datastore == datastore
                    &&& match export.bucket_id {
                        Some(id) => optional_text(bucket_id) == Some(id@),
                        None => bucket_id is None,
                    }
                    &&& export.filename@ == attachment(
                        export_name(optional_text(bucket_id), texts(ids@)),
                    )
                },
                Err(err) => r matches Err(answer) && answer.answers(err),
            },
    {
        match export_filename(bucket_id, found) {
            Ok(filename) => Ok(
                BucketsExportRocket {
                    datastore,
                    bucket_id: match bucket_id {
                        Some(id) => Some(id.to_owned()),
                        None => None,
                    },
                    filename,
                },
            ),
            Err(err) => Err(err),
        }
    }

    /// The head of the response.
    pub fn response_head(&self) -> (head: ResponseHead)
        ensures
            head.announces("application/json"@, self.filename@),
    {
        ResponseHead {
            status: OK,
            content_type: "application/json".to_owned(),
            content_disposition: Some(self.filename.clone()),
        }
    }
}

/// A CSV export that is ready to be sent: the handle of the datastore, what was
/// asked for, the name of the download, and the file that it is staged in.
pub struct BucketEventsCsvRocket<D, F> {
    pub datastore: D,
    pub bucket_id: String,
    pub start: Option<Timestamp>,
    pub end: Option<Timestamp>,
    pub limit: Option<u64>,
    pub filename: String,
    pub staging: F,
}

impl<D, F> BucketEventsCsvRocket<D, F> {
    /// Prepares an export. What goes wrong before the response is begun is
    /// answered.
    ///
    /// `found` is what came of looking the bucket up, `probed` of reading one event
    /// of it with the query of the export, and `staging` of creating the staging
    /// file. The first of them that failed is answered, and what came of those after
    /// it does not matter.
    pub fn new(
        datastore: D,
        bucket_id: &str,
        start: Option<Timestamp>,
        end: Option<Timestamp>,
        limit: Option<u64>,
        found: Result<(), DatastoreError>,
        probed: Result<(), DatastoreError>,
        staging: Result<F, String>,
    ) -> (r: Result<Self, HttpErrorJson>)
        ensures
            r is Ok <==> found is Ok && probed is Ok && staging is Ok,
            match (found, probed, staging) {
                (Err(err), _, _) => r matches Err(answer) && answer.answers(err),
                (Ok(_), Err(err), _) => r matches Err(answer) && answer.answers(err),
                (Ok(_), Ok(_), Err(msg)) => {
                    &&& r matches Err(answer)
                    &&& answer.status == INTERNAL_SERVER_ERROR
                    &&& answer.message@ == "Failed to create CSV staging file: "@ + msg@
                },
                (Ok(_), Ok(_), Ok(staging)) => {
                    &&& r matches Ok(export)
                    &&& export.datastore == datastore
                    &&& export.bucket_id@ == bucket_id@
                    &&& export.start == start
                    &&& export.end == end
                    &&& export.limit == limit
                    &&& export.staging == staging
                    &&& export.filename@ == attachment(
                        "aw-events-export-"@ + bucket_id@ + ".csv"@,
                    )
                },
            },
    {
        if let Err(err) = found {
            return Err(HttpErrorJson::from(err));
        }
        if let Err(err) = probed {
            return Err(HttpErrorJson::from(err));
        }
        match staging {
            Ok(staging) => Ok(
                BucketEventsCsvRocket {
                    datastore,
                    bucket_id: bucket_id.to_owned(),
                    start,
                    end,
                    limit,
                    filename: content_disposition(
                        around("aw-events-export-", bucket_id, ".csv").as_str(),
                    ),
                    staging,
                },
            ),
            Err(msg) => {
                let mut message = "Failed to create CSV staging file: ".to_owned();
                message.append(msg.as_str());
                Err(HttpErrorJson::new(INTERNAL_SERVER_ERROR, message))
            },
        }
    }

    /// The head of the response.
    pub fn response_head(&self) -> (head: ResponseHead)
        ensures
            head.announces("text/csv"@, self.filename@),
    {
        ResponseHead {
            status: OK,
            content_type: "text/csv".to_owned(),
            content_disposition: Some(self.filename.clone()),
        }
    }
}

/// A sanitized text cannot break a header, is as long as the text, and is the
/// text where that cannot break a header.
pub proof fn sanitized_cannot_break_header(s: Seq<char>)
    ensures
        sanitized(s).len() == s.len(),
        forall|i: int| 0 <= i < s.len() ==> !breaks_header(#[trigger] sanitized(s)[i]),
        forall|i: int|
            0 <= i < s.len() && !breaks_header(s[i]) ==> #[trigger] sanitized(s)[i] == s[i],
        sanitized(sanitized(s)) == sanitized(s),
{
    assert(sanitized(sanitized(s)) =~= sanitized(s));
}

/// Whatever a file name holds, the header value stays one value with one
/// parameter: it has no control character and no backslash, its only quotation
/// marks are those around the file name, and its only semicolon is the one before
/// the parameter.
pub proof fn attachment_is_one_value(filename: Seq<char>, i: int)
    requires
        0 <= i < attachment(filename).len(),
    ensures
        ({
            let c = attachment(filename)[i];
            &&& !is_control(c)
            &&& c != '\\'
            &&& c == '"' <==> i == 21 || i == attachment(filename).len() - 1
            &&& c == ';' <==> i == 10
        }),
{
    reveal_strlit("attachment; filename=\"");
    reveal_strlit("\"");
    sanitized_cannot_break_header(filename);
}

proof fn download_names_are_apart(a: Seq<char>, b: Seq<char>)
    ensures
        "aw-bucket-export_"@ + a + ".json"@ == "aw-bucket-export_"@ + b + ".json"@ <==> a == b,
        "aw-bucket-export_"@ + a + ".json"@ != "aw-buckets-export.json"@,
{
    reveal_strlit("aw-bucket-export_");
    reveal_strlit("aw-buckets-export.json");
    reveal_strlit(".json");
    let x = "aw-bucket-export_"@ + a + ".json"@;
    let y = "aw-bucket-export_"@ + b + ".json"@;
    assert(x[9] == '-' && "aw-buckets-export.json"@[9] == 's');
    assert(x.subrange(17, x.len() - 5) =~= a);
    assert(y.subrange(17, y.len() - 5) =~= b);
}

/// A download is named after a bucket exactly if that bucket was asked for or is the only
/// one. Otherwise, however many buckets there are, it has the name of all of them.
pub proof fn download_is_named_after_one_bucket(
    bucket_id: Option<Seq<char>>,
    ids: Seq<Seq<char>>,
    id: Seq<char>,
)
    ensures
        export_name(bucket_id, ids) == "aw-bucket-export_"@ + id + ".json"@ <==> bucket_id == Some(
            id,
        ) || (bucket_id is None && ids == seq![id]),
        export_name(bucket_id, ids) == "aw-buckets-export.json"@ <==> bucket_id is None
            && ids.len() != 1,
{
    match bucket_id {
        Some(asked) => {
            download_names_are_apart(asked, id);
        },
        None => {
            if ids.len() == 1 {
                download_names_are_apart(ids[0], id);
                assert(ids =~= seq![ids[0]]);
            } else {
                download_names_are_apart(id, id);
            }
        },
    }
}

/// Each error of the datastore has its status and its message, which has the whole text
/// that the error carries.
pub proof fn errors_have_their_answers(err: DatastoreError)
    ensures
        match err {
            DatastoreError::NoSuchBucket(id) => {
                &&& error_status(err) == 404
                &&& error_message(err) == "The requested bucket '"@ + id@ + "' does not exist"@
            },
            DatastoreError::BucketAlreadyExists(id) => {
                &&& error_status(err) == 304
                &&& error_message(err) == "Bucket '"@ + id@ + "' already exists"@
            },
            DatastoreError::NoSuchKey(key) => {
                &&& error_status(err) == 404
                &&& error_message(err) == "The requested key(s) '"@ + key@ + "' do not exist"@
            },
            DatastoreError::MpscError => {
                &&& error_status(err) == 500
                &&& error_message(err) == "Unexpected Mpsc error!"@
            },
            DatastoreError::InternalError(msg) => error_status(err) == 500 && error_message(err)
                == msg@,
            DatastoreError::Uninitialized(msg) => error_status(err) == 500 && error_message(err)
                == msg@,
            DatastoreError::OldDbVersion(msg) => error_status(err) == 500 && error_message(err)
                == msg@,
        },
{
}

/// The header value of a download has the whole file name between its quotation marks.
/// Each character is its own, or an underscore where it is a control character, a
/// quotation mark, a backslash or a semicolon.
pub proof fn attachment_has_whole_filename(filename: Seq<char>, i: int)
    ensures
        ({
            let value = attachment(filename);
            let c = filename[i];
            &&& value.len() == filename.len() + 23
            &&& value.take(22) == "attachment; filename=\""@
            &&& value.last() == '"'
            &&& 0 <= i < filename.len() ==> value[22 + i] == if c <= '\u{1f}' || ('\u{7f}' <= c && c <= '\u{9f}') || c == '"'
                || c == '\\' || c == ';' {
                '_'
            } else {
                c
            }
        }),
{
    reveal_strlit("attachment; filename=\"");
    reveal_strlit("\"");
    assert(attachment(filename).take(22) =~= "attachment; filename=\""@);
}

/// A response answers an error, or announces a download, only with all that belongs to
/// it.
pub proof fn responses_are_whole(
    answer: HttpErrorJson,
    err: DatastoreError,
    head: ResponseHead,
    content_type: Seq<char>,
    disposition: Seq<char>,
)
    ensures
        answer.answers(err) ==> answer.status == error_status(err) && answer.message@
            == error_message(err),
        head.announces(content_type, disposition) ==> {
            &&& head.status == 200
            &&& head.content_type@ == content_type
            &&& head.content_disposition matches Some(d) && d@ == disposition
        },
        optional_text(None) is None,
{
}

/// What was asked for is asked for as it is.
pub proof fn what_was_asked_for_stays(id: &str)
    ensures
        optional_text(Some(id)) == Some(id@),
{
}

} // verus!
