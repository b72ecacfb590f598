//! The clipboard sampler: per-cycle classification of what the OS clipboard
//! holds, novelty detection against loop-local fingerprints, record
//! construction, store deduplication, retention, and the change signal. The
//! polling loop itself — clipboard reads and the sleep — lives outside; it
//! hands each cycle's readings in as plain values.

use vstd::prelude::*;

use crate::database::{
    Record, RecordSQL, RecModel, IndexSQL, spec_insert_if_not_exist, spec_listing_of,
    spec_full_of, spec_kw_filter, spec_app_icon_row, IdxModel,
};
use crate::img_factory::{ImageContent, png_of, jpeg_of, spec_rgb_of, rgba8_to_base64,
    rgba8_to_jpeg_base64};
use crate::json_factory::{spec_dec, spec_json_string, spec_files_json, views_of_pairs,
    append_dec, append_json_string, stringify_files};
use crate::string_factory::{md5_of, md5_bytes_of, b64_of, spec_trim, spec_take_chars, md5,
    md5_by_bytes, trim_str, take_chars, str_eq, push_char};

verus! {

/// The sampler's owner; its methods are the decision logic of one poll
/// cycle.
pub struct ClipboardWatcher;

/// The clipboard operator's owner: placing values back onto the clipboard
/// is OS work done outside, over payloads decoded by this crate; its one
/// decision, which operation a control request asks for, lives here.
pub struct ClipboardOperator;

/// What a clipboard-control request asks of the OS clipboard.
pub enum ClipboardCommand {
    WriteFile,
    WriteImage,
    WriteText(bool),
    ReadText,
}

/// The operation a control request names: a write dispatches on the
/// payload type, with file writes unsupported and the paste flag honoured
/// only for text; anything else reads the clipboard.
pub open spec fn spec_plan_control(control: Seq<char>, data_type: Seq<char>, paste: bool) -> ClipboardCommand {
    if control == "write"@ {
        if data_type == "file"@ {
            ClipboardCommand::WriteFile
        } else if data_type == "image"@ {
            ClipboardCommand::WriteImage
        } else {
            ClipboardCommand::WriteText(paste)
        }
    } else {
        ClipboardCommand::ReadText
    }
}

impl ClipboardOperator {
    /// Decide what a clipboard-control request asks for.
    pub fn plan_control(control: &str, data_type: &str, paste: bool) -> (r: ClipboardCommand)
        ensures
            r == spec_plan_control(control@, data_type@, paste),
    {
        if str_eq(control, "write") {
            if str_eq(data_type, "file") {
                ClipboardCommand::WriteFile
            } else if str_eq(data_type, "image") {
                ClipboardCommand::WriteImage
            } else {
                ClipboardCommand::WriteText(paste)
            }
        } else {
            ClipboardCommand::ReadText
        }
    }
}

/// An image payload as the store serializes it.
pub struct ImageDataDB {
    pub width: usize,
    pub height: usize,
    pub base64: String,
    pub title: String,
}

impl Default for ImageDataDB {
    /// An empty image payload.
    fn default() -> (r: ImageDataDB)
        ensures
            r.width == 0,
            r.height == 0,
            r.base64@ == Seq::<char>::empty(),
            r.title@ == Seq::<char>::empty(),
    {
        ImageDataDB { width: 0, height: 0, base64: String::new(), title: String::new() }
    }
}

/// A file-drop payload as the store serializes it.
pub struct FileDataDB {
    pub file_count: usize,
    pub files: String,
    pub title: String,
}

impl Default for FileDataDB {
    /// An empty file-drop payload.
    fn default() -> (r: FileDataDB)
        ensures
            r.file_count == 0,
            r.files@ == Seq::<char>::empty(),
            r.title@ == Seq::<char>::empty(),
    {
        FileDataDB { file_count: 0, files: String::new(), title: String::new() }
    }
}

// ---------------------------------------------------------------------------
// The serialized payloads and display titles.
// ---------------------------------------------------------------------------

/// The JSON form of a file-drop payload, fields in declaration order.
pub open spec fn spec_file_data_json(
    file_count: int,
    files: Seq<char>,
    title: Seq<char>,
) -> Seq<char> {
    "{\"file_count\":"@ + spec_dec(file_count) + ",\"files\":"@ + spec_json_string(files)
        + ",\"title\":"@ + spec_json_string(title) + "}"@
}

/// The JSON form of an image payload, fields in declaration order.
pub open spec fn spec_image_data_json(
    width: int,
    height: int,
    base64: Seq<char>,
    title: Seq<char>,
) -> Seq<char> {
    "{\"width\":"@ + spec_dec(width) + ",\"height\":"@ + spec_dec(height) + ",\"base64\":"@
        + spec_json_string(base64) + ",\"title\":"@ + spec_json_string(title) + "}"@
}

/// Serialize a file-drop payload.
pub fn stringify_file_data(d: &FileDataDB) -> (r: String)
    ensures
        r@ == spec_file_data_json(d.file_count as int, d.files@, d.title@),
{
    let mut out = String::new();
    out.append("{\"file_count\":");
    append_dec(&mut out, d.file_count as u64);
    out.append(",\"files\":");
    append_json_string(&mut out, d.files.as_str());
    out.append(",\"title\":");
    append_json_string(&mut out, d.title.as_str());
    out.append("}");
    proof {
        assert(out@ =~= spec_file_data_json(d.file_count as int, d.files@, d.title@));
    }
    out
}

/// Serialize an image payload.
pub fn stringify_image_data(d: &ImageDataDB) -> (r: String)
    ensures
        r@ == spec_image_data_json(d.width as int, d.height as int, d.base64@, d.title@),
{
    let mut out = String::new();
    out.append("{\"width\":");
    append_dec(&mut out, d.width as u64);
    out.append(",\"height\":");
    append_dec(&mut out, d.height as u64);
    out.append(",\"base64\":");
    append_json_string(&mut out, d.base64.as_str());
    out.append(",\"title\":");
    append_json_string(&mut out, d.title.as_str());
    out.append("}");
    proof {
        assert(out@ =~= spec_image_data_json(d.width as int, d.height as int, d.base64@, d.title@));
    }
    out
}

/// The last segment of a path: what follows the final separator.
pub open spec fn spec_last_segment(s: Seq<char>) -> Seq<char>
    decreases s.len(),
{
    if s.len() == 0 {
        Seq::empty()
    } else if s.last() == '/' {
        Seq::empty()
    } else {
        spec_last_segment(s.drop_last()).push(s.last())
    }
}

proof fn lemma_last_segment_is(s: Seq<char>, cut: int)
    requires
        0 <= cut <= s.len(),
        forall|k: int| cut <= k < s.len() ==> s[k] != '/',
        cut == 0 || s[cut - 1] == '/',
    ensures
        spec_last_segment(s) =~= s.subrange(cut, s.len() as int),
    decreases s.len(),
{
    if s.len() == 0 {
    } else if s.last() == '/' {
        assert(cut == s.len());
    } else {
        assert(cut < s.len());
        lemma_last_segment_is(s.drop_last(), cut);
        assert(s.drop_last().subrange(cut, s.len() - 1) =~= s.subrange(cut, s.len() - 1));
        assert(s.subrange(cut, s.len() as int) =~= s.subrange(cut, s.len() - 1).push(s.last()));
    }
}

/// The last segment of a path.
pub fn last_segment(s: &str) -> (r: String)
    ensures
        r@ == spec_last_segment(s@),
{
    let n = s.unicode_len();
    let mut cut: usize = n;
    while cut > 0 && s.get_char(cut - 1) != '/'
        invariant
            cut <= n,
            n == s@.len(),
            forall|k: int| cut <= k < n ==> s@[k] != '/',
        decreases cut,
    {
        cut -= 1;
    }
    proof {
        lemma_last_segment_is(s@, cut as int);
    }
    s.substring_char(cut, n).to_owned()
}

/// The title of a file-drop record: the count, a pluralised noun, and the
/// first file's name.
pub open spec fn spec_file_title(count: int, first_path: Seq<char>) -> Seq<char> {
    spec_dec(count) + " File"@ + (if count > 1 {
        "s"@
    } else {
        Seq::<char>::empty()
    }) + ": "@ + spec_last_segment(first_path)
}

/// Render the title of a file-drop record.
pub fn file_title(count: usize, first_path: &str) -> (r: String)
    ensures
        r@ == spec_file_title(count as int, first_path@),
{
    let mut out = String::new();
    append_dec(&mut out, count as u64);
    out.append(" File");
    if count > 1 {
        out.append("s");
    }
    out.append(": ");
    let seg = last_segment(first_path);
    out.append(seg.as_str());
    proof {
        assert(out@ =~= spec_file_title(count as int, first_path@));
    }
    out
}

/// The two-digit rendering of a value below one hundred.
pub open spec fn spec_two_digits(d: int) -> Seq<char> {
    seq![
        crate::json_factory::spec_dec_digit(d / 10),
        crate::json_factory::spec_dec_digit(d % 10),
    ]
}

/// The title of an image record: its dimensions and its raw size in
/// kibibytes, kept to two digits of fraction (rounded down).
pub open spec fn spec_image_title(w: int, h: int, byte_len: int) -> Seq<char> {
    let hundredths = byte_len * 100 / 1024;
    "Image:"@ + spec_dec(w) + "\u{00D7}"@ + spec_dec(h) + "("@ + spec_dec(hundredths / 100)
        + "."@ + spec_two_digits(hundredths % 100) + "kb)"@
}

/// Render the title of an image record.
pub fn image_title(w: usize, h: usize, byte_len: usize) -> (r: String)
    requires
        byte_len * 100 <= u64::MAX,
    ensures
        r@ == spec_image_title(w as int, h as int, byte_len as int),
{
    let hundredths: u64 = (byte_len as u64) * 100 / 1024;
    let mut out = String::new();
    out.append("Image:");
    append_dec(&mut out, w as u64);
    out.append("\u{00D7}");
    append_dec(&mut out, h as u64);
    out.append("(");
    append_dec(&mut out, hundredths / 100);
    out.append(".");
    let d = hundredths % 100;
    push_char(&mut out, crate::json_factory::dec_digit_char(d / 10));
    push_char(&mut out, crate::json_factory::dec_digit_char(d % 10));
    out.append("kb)");
    proof {
        assert(out@ =~= spec_image_title(w as int, h as int, byte_len as int));
    }
    out
}


// ---------------------------------------------------------------------------
// The sampler's state and one cycle's readings.
// ---------------------------------------------------------------------------

/// The loop-local novelty state: one last-seen fingerprint per content
/// type — text, file list, and image. A fast cycle-to-cycle short-circuit,
/// distinct from the store's own uniqueness key; an observation of one type
/// never disturbs another type's gate.
pub struct SamplerState {
    pub last_content_md5: String,
    pub last_file_md5: String,
    pub last_img_md5: String,
}

impl SamplerState {
    /// The state a fresh sampler starts from: nothing seen yet.
    pub fn new() -> (r: Self)
        ensures
            r.last_content_md5@ == Seq::<char>::empty(),
            r.last_file_md5@ == Seq::<char>::empty(),
            r.last_img_md5@ == Seq::<char>::empty(),
    {
        SamplerState {
            last_content_md5: String::new(),
            last_file_md5: String::new(),
            last_img_md5: String::new(),
        }
    }
}

/// What one poll of the OS clipboard yielded, as plain values: the file
/// list, the text if any, the image if any, and the best-effort source
/// application label.
pub struct CycleInput {
    pub files: Vec<(String, String)>,
    pub text: Option<String>,
    pub image: Option<ImageContent>,
    pub source: String,
}

impl CycleInput {
    /// The text reading, viewed.
    pub open spec fn text_view(&self) -> Option<Seq<char>> {
        match self.text {
            Some(t) => Some(t@),
            None => None,
        }
    }

    /// The image reading, viewed as dimensions and pixel bytes.
    pub open spec fn image_view(&self) -> Option<(int, int, Seq<u8>)> {
        match self.image {
            Some(img) => Some((img.width as int, img.height as int, img.bytes@)),
            None => None,
        }
    }

    /// A well-formed reading: any image in it is a well-formed RGBA buffer.
    pub open spec fn wf(&self) -> bool {
        match self.image {
            Some(img) => img.wf(),
            None => true,
        }
    }
}

// ---------------------------------------------------------------------------
// The cycle's transitions, stated over the store model.
// ---------------------------------------------------------------------------

/// The stored content of a file-drop observation: the serialized payload
/// holding the count, the canonical file list, and the display title.
pub open spec fn spec_file_content(files: Seq<(Seq<char>, Seq<char>)>) -> Seq<char> {
    spec_file_data_json(
        files.len() as int,
        spec_files_json(files),
        spec_file_title(files.len() as int, files[0].0),
    )
}

/// What a file-drop reading does to (rows, id counter, last-seen file
/// fingerprint): nothing when the list's fingerprint is the one last seen
/// for file drops; otherwise the payload is recorded under the file type
/// and the file fingerprint remembered. The flag says whether a row was
/// added.
pub open spec fn spec_handle_files(
    rows: Seq<RecModel>,
    next_id: u64,
    last_md5: Seq<char>,
    files: Seq<(Seq<char>, Seq<char>)>,
    source: Seq<char>,
    now: u64,
) -> (Seq<RecModel>, u64, Seq<char>, bool) {
    let fp = md5_of(spec_files_json(files));
    if fp == last_md5 {
        (rows, next_id, last_md5, false)
    } else {
        let content = spec_file_content(files);
        let stepped = spec_insert_if_not_exist(
            rows,
            next_id,
            content,
            content,
            "file"@,
            source,
            now,
        );
        (
            stepped.0,
            if stepped.1 {
                (next_id + 1) as u64
            } else {
                next_id
            },
            fp,
            stepped.1,
        )
    }
}

/// The preview of a text observation: the trimmed text, cut to a thousand
/// characters.
pub open spec fn spec_text_preview(text: Seq<char>) -> Seq<char> {
    spec_take_chars(spec_trim(text), 1000)
}

/// What a text reading does: nothing when the trimmed text is empty or the
/// untrimmed text's fingerprint is the one last seen; otherwise the
/// untrimmed text is recorded in full under the text type, with the trimmed
/// and truncated preview, and the fingerprint remembered.
pub open spec fn spec_handle_text(
    rows: Seq<RecModel>,
    next_id: u64,
    last_md5: Seq<char>,
    text: Seq<char>,
    source: Seq<char>,
    now: u64,
) -> (Seq<RecModel>, u64, Seq<char>, bool) {
    let fp = md5_of(text);
    if spec_trim(text).len() == 0 || fp == last_md5 {
        (rows, next_id, last_md5, false)
    } else {
        let stepped = spec_insert_if_not_exist(
            rows,
            next_id,
            text,
            spec_text_preview(text),
            "text"@,
            source,
            now,
        );
        (
            stepped.0,
            if stepped.1 {
                (next_id + 1) as u64
            } else {
                next_id
            },
            fp,
            stepped.1,
        )
    }
}

/// The stored content of an image observation: the payload holding its
/// dimensions, the lossless PNG encoding in base64, and the display title.
pub open spec fn spec_image_content(w: int, h: int, bytes: Seq<u8>) -> Seq<char> {
    spec_image_data_json(
        w,
        h,
        b64_of(png_of(bytes, w, h)),
        spec_image_title(w, h, bytes.len() as int),
    )
}

/// The preview of an image observation: the same payload around the lossy
/// JPEG encoding, alpha dropped, at quality seventy.
pub open spec fn spec_image_preview(w: int, h: int, bytes: Seq<u8>) -> Seq<char> {
    spec_image_data_json(
        w,
        h,
        b64_of(jpeg_of(spec_rgb_of(bytes), w, h, 70)),
        spec_image_title(w, h, bytes.len() as int),
    )
}

/// What an image reading does: nothing when the pixel buffer's fingerprint
/// is the one last seen; otherwise the freshly encoded payload and preview
/// are recorded under the image type and the fingerprint remembered.
pub open spec fn spec_handle_image(
    rows: Seq<RecModel>,
    next_id: u64,
    last_img_md5: Seq<char>,
    w: int,
    h: int,
    bytes: Seq<u8>,
    source: Seq<char>,
    now: u64,
) -> (Seq<RecModel>, u64, Seq<char>, bool) {
    let fp = md5_bytes_of(bytes);
    if fp == last_img_md5 {
        (rows, next_id, last_img_md5, false)
    } else {
        let stepped = spec_insert_if_not_exist(
            rows,
            next_id,
            spec_image_content(w, h, bytes),
            spec_image_preview(w, h, bytes),
            "image"@,
            source,
            now,
        );
        (
            stepped.0,
            if stepped.1 {
                (next_id + 1) as u64
            } else {
                next_id
            },
            fp,
            stepped.1,
        )
    }
}

/// What the retention sweep does: nothing while the table holds fewer than
/// `limit` plus ten rows; otherwise only the `limit` most recent remain.
pub open spec fn spec_delete_over_limit(rows: Seq<RecModel>, limit: int) -> (Seq<RecModel>, bool) {
    if rows.len() < limit + 10 {
        (rows, false)
    } else {
        (rows.take(limit), true)
    }
}

/// One whole sampler cycle: a non-empty file list is recorded and
/// suppresses the text reading; otherwise the text reading is recorded; an
/// image reading is handled independently of either; the retention sweep
/// runs last. Each content type gates on its own last-seen fingerprint and
/// only that fingerprint moves. The result carries the new rows, the id
/// counter, the three fingerprints (text, file, image), and whether
/// anything changed (a row added or an eviction).
pub open spec fn spec_run_cycle(
    rows: Seq<RecModel>,
    next_id: u64,
    last_content_md5: Seq<char>,
    last_file_md5: Seq<char>,
    last_img_md5: Seq<char>,
    files: Seq<(Seq<char>, Seq<char>)>,
    text: Option<Seq<char>>,
    image: Option<(int, int, Seq<u8>)>,
    source: Seq<char>,
    limit: int,
    now: u64,
) -> (Seq<RecModel>, u64, Seq<char>, Seq<char>, Seq<char>, bool) {
    let s1 = if files.len() > 0 {
        let stepped = spec_handle_files(rows, next_id, last_file_md5, files, source, now);
        (stepped.0, stepped.1, last_content_md5, stepped.2, stepped.3)
    } else {
        match text {
            Some(t) => {
                let stepped = spec_handle_text(rows, next_id, last_content_md5, t, source, now);
                (stepped.0, stepped.1, stepped.2, last_file_md5, stepped.3)
            },
            None => (rows, next_id, last_content_md5, last_file_md5, false),
        }
    };
    let s2 = match image {
        Some(img) => spec_handle_image(s1.0, s1.1, last_img_md5, img.0, img.1, img.2, source, now),
        None => (s1.0, s1.1, last_img_md5, false),
    };
    let swept = spec_delete_over_limit(s2.0, limit);
    (swept.0, s2.1, s1.2, s1.3, s2.2, s1.4 || s2.3 || swept.1)
}

// ---------------------------------------------------------------------------
// The executable cycle.
// ---------------------------------------------------------------------------

/// Relies on chrono's Local::now and DateTime::timestamp_millis: the
/// current wall clock in milliseconds since the epoch. Nothing is promised
/// of the value; the cycle logic is verified for every value it takes.
#[verifier::external_body]
pub fn now_millis() -> u64 {
    chrono::Local::now().timestamp_millis() as u64
}

impl ClipboardWatcher {
    /// Handle a non-empty file-list reading.
    fn handle_file_observation(
        db: &mut RecordSQL,
        state: &mut SamplerState,
        files: &Vec<(String, String)>,
        source: &String,
        now: u64,
    ) -> (notify: bool)
        requires
            old(db).wf(),
            old(db).spec_next_id() < u64::MAX,
            files@.len() > 0,
        ensures
            final(db).wf(),
            (final(db)@, final(db).spec_next_id(), final(state).last_file_md5@, notify)
                == spec_handle_files(
                old(db)@,
                old(db).spec_next_id(),
                old(state).last_file_md5@,
                views_of_pairs(files@),
                source@,
                now,
            ),
            final(state).last_content_md5 == old(state).last_content_md5,
            final(state).last_img_md5 == old(state).last_img_md5,
    {
        let files_string = stringify_files(files);
        let fp = md5(files_string.as_str());
        if str_eq(fp.as_str(), state.last_file_md5.as_str()) {
            return false;
        }
        let count = files.len();
        let title = file_title(count, files[0].0.as_str());
        proof {
            assert(views_of_pairs(files@)[0].0 == files@[0].0@);
            assert(views_of_pairs(files@).len() == files@.len());
        }
        let content_db = FileDataDB { file_count: count, files: files_string, title };
        let content = stringify_file_data(&content_db);
        let content_copy = content.clone();
        let rec = Record {
            id: 0,
            content,
            content_preview: Some(content_copy),
            data_type: "file".to_owned(),
            md5: String::new(),
            create_time: 0,
            app_icon: String::new(),
            source: source.clone(),
        };
        proof {
            assert(rec.content@ == spec_file_content(views_of_pairs(files@)));
            assert(crate::database::spec_preview_of(rec) == rec.content@);
        }
        let added = db.insert_if_not_exist(&rec, now);
        state.last_file_md5 = fp;
        added
    }

    /// Handle a text reading.
    fn handle_text_observation(
        db: &mut RecordSQL,
        state: &mut SamplerState,
        text: &String,
        source: &String,
        now: u64,
    ) -> (notify: bool)
        requires
            old(db).wf(),
            old(db).spec_next_id() < u64::MAX,
        ensures
            final(db).wf(),
            (final(db)@, final(db).spec_next_id(), final(state).last_content_md5@, notify)
                == spec_handle_text(
                old(db)@,
                old(db).spec_next_id(),
                old(state).last_content_md5@,
                text@,
                source@,
                now,
            ),
            final(state).last_file_md5 == old(state).last_file_md5,
            final(state).last_img_md5 == old(state).last_img_md5,
    {
        let trimmed = trim_str(text.as_str());
        let fp = md5(text.as_str());
        if trimmed.as_str().is_empty() || str_eq(fp.as_str(), state.last_content_md5.as_str()) {
            return false;
        }
        let preview = take_chars(trimmed.as_str(), 1000);
        let rec = Record {
            id: 0,
            content: text.clone(),
            content_preview: Some(preview),
            data_type: "text".to_owned(),
            md5: String::new(),
            create_time: 0,
            app_icon: String::new(),
            source: source.clone(),
        };
        proof {
            assert(crate::database::spec_preview_of(rec) == spec_text_preview(text@));
        }
        let added = db.insert_if_not_exist(&rec, now);
        state.last_content_md5 = fp;
        added
    }

    /// Handle an image reading.
    fn handle_image_observation(
        db: &mut RecordSQL,
        state: &mut SamplerState,
        img: &ImageContent,
        source: &String,
        now: u64,
    ) -> (notify: bool)
        requires
            old(db).wf(),
            old(db).spec_next_id() < u64::MAX,
            img.wf(),
        ensures
            final(db).wf(),
            (final(db)@, final(db).spec_next_id(), final(state).last_img_md5@, notify)
                == spec_handle_image(
                old(db)@,
                old(db).spec_next_id(),
                old(state).last_img_md5@,
                img.width as int,
                img.height as int,
                img.bytes@,
                source@,
                now,
            ),
            final(state).last_content_md5 == old(state).last_content_md5,
            final(state).last_file_md5 == old(state).last_file_md5,
    {
        let fp = md5_by_bytes(img.bytes.as_slice());
        if str_eq(fp.as_str(), state.last_img_md5.as_str()) {
            return false;
        }
        proof {
            let k = (img.width as int) * (img.height as int);
            assert(k <= 65535 * 65535 && 4 * (img.width as int) * (img.height as int) == 4 * k)
                by (nonlinear_arith)
                requires
                    k == (img.width as int) * (img.height as int),
                    1 <= img.width <= 65535,
                    1 <= img.height <= 65535,
            ;
            assert(img.bytes@.len() * 100 <= u64::MAX);
        }
        let base64 = rgba8_to_base64(img);
        let title = image_title(img.width, img.height, img.bytes.len());
        let title_copy = title.clone();
        let content_db = ImageDataDB {
            width: img.width,
            height: img.height,
            base64,
            title,
        };
        let content = stringify_image_data(&content_db);
        let jpeg_base64 = rgba8_to_jpeg_base64(img, 70);
        let preview_db = ImageDataDB {
            width: img.width,
            height: img.height,
            base64: jpeg_base64,
            title: title_copy,
        };
        let content_preview = stringify_image_data(&preview_db);
        let rec = Record {
            id: 0,
            content,
            content_preview: Some(content_preview),
            data_type: "image".to_owned(),
            md5: String::new(),
            create_time: 0,
            app_icon: String::new(),
            source: source.clone(),
        };
        proof {
            assert(rec.content@ == spec_image_content(
                img.width as int,
                img.height as int,
                img.bytes@,
            ));
            assert(crate::database::spec_preview_of(rec) == spec_image_preview(
                img.width as int,
                img.height as int,
                img.bytes@,
            ));
        }
        let added = db.insert_if_not_exist(&rec, now);
        state.last_img_md5 = fp;
        added
    }

    /// One sampler cycle over one poll's readings, at an explicit time: a
    /// file drop wins over text, an image is handled independently, the
    /// retention sweep runs last, and the result is the change signal.
    pub fn run_cycle(
        db: &mut RecordSQL,
        state: &mut SamplerState,
        input: &CycleInput,
        limit: usize,
        now: u64,
    ) -> (notify: bool)
        requires
            old(db).wf(),
            old(db).spec_next_id() + 2 < u64::MAX,
            input.wf(),
        ensures
            final(db).wf(),
            ({
                let stepped = spec_run_cycle(
                    old(db)@,
                    old(db).spec_next_id(),
                    old(state).last_content_md5@,
                    old(state).last_file_md5@,
                    old(state).last_img_md5@,
                    views_of_pairs(input.files@),
                    input.text_view(),
                    input.image_view(),
                    input.source@,
                    limit as int,
                    now,
                );
                final(db)@ == stepped.0 && final(db).spec_next_id() == stepped.1
                    && final(state).last_content_md5@ == stepped.2
                    && final(state).last_file_md5@ == stepped.3
                    && final(state).last_img_md5@ == stepped.4 && notify == stepped.5
            }),
    {
        let mut notify: bool = false;
        if files_nonempty(&input.files) {
            proof {
                assert(views_of_pairs(input.files@).len() == input.files@.len());
            }
            if Self::handle_file_observation(db, state, &input.files, &input.source, now) {
                notify = true;
            }
        } else {
            proof {
                assert(views_of_pairs(input.files@).len() == input.files@.len());
            }
            match &input.text {
                Some(t) => {
                    if Self::handle_text_observation(db, state, t, &input.source, now) {
                        notify = true;
                    }
                },
                None => {},
            }
        }
        match &input.image {
            Some(img) => {
                if Self::handle_image_observation(db, state, img, &input.source, now) {
                    notify = true;
                }
            },
            None => {},
        }
        let evicted = db.delete_over_limit(limit);
        if evicted {
            notify = true;
        }
        notify
    }

    /// One sampler cycle at the wall clock's present reading. The cycle's
    /// effect is that of `spec_run_cycle` at whatever time the clock gave.
    pub fn poll_once(
        db: &mut RecordSQL,
        state: &mut SamplerState,
        input: &CycleInput,
        limit: usize,
    ) -> (notify: bool)
        requires
            old(db).wf(),
            old(db).spec_next_id() + 2 < u64::MAX,
            input.wf(),
        ensures
            final(db).wf(),
            exists|t: u64|
                ({
                    let stepped = #[trigger] spec_run_cycle(
                        old(db)@,
                        old(db).spec_next_id(),
                        old(state).last_content_md5@,
                        old(state).last_file_md5@,
                        old(state).last_img_md5@,
                        views_of_pairs(input.files@),
                        input.text_view(),
                        input.image_view(),
                        input.source@,
                        limit as int,
                        t,
                    );
                    final(db)@ == stepped.0 && final(db).spec_next_id() == stepped.1
                        && final(state).last_content_md5@ == stepped.2
                        && final(state).last_file_md5@ == stepped.3
                        && final(state).last_img_md5@ == stepped.4 && notify == stepped.5
                }),
    {
        let now = now_millis();
        Self::run_cycle(db, state, input, limit, now)
    }
}

/// Whether the file list has anything in it.
fn files_nonempty(files: &Vec<(String, String)>) -> (r: bool)
    ensures
        r == (files@.len() > 0),
{
    files.len() > 0
}

// ---------------------------------------------------------------------------
// The history commands the UI surface calls.
// ---------------------------------------------------------------------------

/// Every history row, newest first, in listing form.
pub fn get_history_all(db: &RecordSQL) -> (res: Vec<Record>)
    ensures
        res@.len() == db@.len(),
        forall|i: int|
            0 <= i < res@.len() ==> (#[trigger] res@[i]).model() == spec_listing_of(db@[i]),
        forall|i: int| 0 <= i < res@.len() ==> (#[trigger] res@[i]).content_preview is None,
{
    db.find_all()
}

/// A listing row with its source's icon attached from the application
/// index.
pub open spec fn spec_enriched(m: RecModel, apps: Seq<IdxModel>) -> RecModel {
    RecModel { app_icon: spec_app_icon_row(apps, m.source).icon, ..m }
}

/// A page of history rows, newest first, each carrying the icon of its
/// source application as the index knows it.
pub fn get_history_part(db: &RecordSQL, db_app: &IndexSQL, limit: i32, offset: i32) -> (res: Vec<
    Record,
>)
    requires
        0 <= limit,
        0 <= offset,
    ensures
        ({
            let start = if offset as int <= db@.len() {
                offset as int
            } else {
                db@.len() as int
            };
            let end = if offset as int + limit as int <= db@.len() {
                offset as int + limit as int
            } else {
                db@.len() as int
            };
            res@.len() == end - start && forall|k: int|
                0 <= k < res@.len() ==> (#[trigger] res@[k]).model() == spec_enriched(
                    spec_listing_of(db@[start + k]),
                    db_app.app_view(),
                )
        }),
        forall|k: int| 0 <= k < res@.len() ==> (#[trigger] res@[k]).content_preview is None,
{
    let page = db.find_part(limit, offset);
    let n = page.len();
    let ghost start = if offset as int <= db@.len() {
        offset as int
    } else {
        db@.len() as int
    };
    let mut res: Vec<Record> = Vec::new();
    let mut i: usize = 0;
    while i < n
        invariant
            i <= n,
            n == page@.len(),
            forall|k: int|
                0 <= k < page@.len() ==> (#[trigger] page@[k]).model() == spec_listing_of(
                    db@[start + k],
                ),
            forall|k: int|
                0 <= k < page@.len() ==> (#[trigger] page@[k]).content_preview is None,
            res@.len() == i,
            forall|k: int|
                0 <= k < i ==> (#[trigger] res@[k]).model() == spec_enriched(
                    spec_listing_of(db@[start + k]),
                    db_app.app_view(),
                ),
            forall|k: int| 0 <= k < i ==> (#[trigger] res@[k]).content_preview is None,
        decreases n - i,
    {
        let r = &page[i];
        let icon_row = db_app.find_app_icon(r.source.as_str());
        let out = Record {
            id: r.id,
            content: r.content.clone(),
            content_preview: match &r.content_preview {
                Some(p) => Some(p.clone()),
                None => None,
            },
            data_type: r.data_type.clone(),
            md5: r.md5.clone(),
            create_time: r.create_time,
            app_icon: icon_row.icon,
            source: r.source.clone(),
        };
        res.push(out);
        i += 1;
    }
    res
}

/// Keyword search over the history: rows of any type whose stored content
/// or preview holds the keyword, newest first, thirty to a page.
pub fn get_history_search(db: &RecordSQL, keyword: &str, offset: i32) -> (res: Vec<Record>)
    requires
        0 <= offset,
    ensures
        ({
            let f = spec_kw_filter(db@, keyword@);
            let start = if offset as int <= f.len() {
                offset as int
            } else {
                f.len() as int
            };
            let end = if offset as int + 30 <= f.len() {
                offset as int + 30
            } else {
                f.len() as int
            };
            res@.len() == end - start && forall|k: int|
                0 <= k < res@.len() ==> (#[trigger] res@[k]).model() == spec_listing_of(
                    f[start + k],
                )
        }),
        forall|k: int| 0 <= k < res@.len() ==> (#[trigger] res@[k]).content_preview is None,
{
    db.find_by_keyword(keyword, offset)
}

/// Point lookup of one history row, with its full content.
pub fn get_history_id(db: &RecordSQL, id: u64) -> (res: Option<Record>)
    ensures
        match res {
            Some(rec) => rec.content_preview is None && exists|i: int|
                0 <= i < db@.len() && (#[trigger] db@[i]).id == id && rec.model() == spec_full_of(
                    db@[i],
                ),
            None => forall|i: int| 0 <= i < db@.len() ==> (#[trigger] db@[i]).id != id,
        },
{
    db.find_by_id(id)
}

} // verus!
