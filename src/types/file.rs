use vstd::prelude::*;

verus! {

/// The type of a stored file, from a closed set.
#[derive(Debug, Clone, PartialEq, Eq)]
pub enum FileType {
    Image(ImageType),
    Document(DocumentType),
    Video(VideoType),
    Audio(AudioType),
    Unknown,
}

#[derive(Debug, Clone, PartialEq, Eq)]
pub enum ImageType {
    Jpeg,
    Png,
    Gif,
    Webp,
    Other(String),
}

#[derive(Debug, Clone, PartialEq, Eq)]
pub enum DocumentType {
    Pdf,
    Doc,
    Docx,
    Other(String),
}

#[derive(Debug, Clone, PartialEq, Eq)]
pub enum VideoType {
    Mp4,
    Mkv,
    Avi,
    Other(String),
}

#[derive(Debug, Clone, PartialEq, Eq)]
pub enum AudioType {
    Mp3,
    Wav,
    Flac,
    Other(String),
}

/// What a `FileType` denotes, with the MIME text of an `Other` as a sequence.
pub enum FileKind {
    ImageJpeg,
    ImagePng,
    ImageGif,
    ImageWebp,
    ImageOther(Seq<char>),
    DocumentPdf,
    DocumentDoc,
    DocumentDocx,
    DocumentOther(Seq<char>),
    VideoMp4,
    VideoMkv,
    VideoAvi,
    VideoOther(Seq<char>),
    AudioMp3,
    AudioWav,
    AudioFlac,
    AudioOther(Seq<char>),
    Unknown,
}

impl FileKind {
    /// Documents and files of unknown type go through compression and
    /// encryption; images, videos and audio are stored as they are.
    pub open spec fn is_transformed(self) -> bool {
        match self {
            FileKind::DocumentPdf | FileKind::DocumentDoc | FileKind::DocumentDocx
            | FileKind::DocumentOther(_) | FileKind::Unknown => true,
            _ => false,
        }
    }
}

impl View for FileType {
    type V = FileKind;

    open spec fn view(&self) -> FileKind {
        match self {
            FileType::Image(ImageType::Jpeg) => FileKind::ImageJpeg,
            FileType::Image(ImageType::Png) => FileKind::ImagePng,
            FileType::Image(ImageType::Gif) => FileKind::ImageGif,
            FileType::Image(ImageType::Webp) => FileKind::ImageWebp,
            FileType::Image(ImageType::Other(m)) => FileKind::ImageOther(m@),
            FileType::Document(DocumentType::Pdf) => FileKind::DocumentPdf,
            FileType::Document(DocumentType::Doc) => FileKind::DocumentDoc,
            FileType::Document(DocumentType::Docx) => FileKind::DocumentDocx,
            FileType::Document(DocumentType::Other(m)) => FileKind::DocumentOther(m@),
            FileType::Video(VideoType::Mp4) => FileKind::VideoMp4,
            FileType::Video(VideoType::Mkv) => FileKind::VideoMkv,
            FileType::Video(VideoType::Avi) => FileKind::VideoAvi,
            FileType::Video(VideoType::Other(m)) => FileKind::VideoOther(m@),
            FileType::Audio(AudioType::Mp3) => FileKind::AudioMp3,
            FileType::Audio(AudioType::Wav) => FileKind::AudioWav,
            FileType::Audio(AudioType::Flac) => FileKind::AudioFlac,
            FileType::Audio(AudioType::Other(m)) => FileKind::AudioOther(m@),
            FileType::Unknown => FileKind::Unknown,
        }
    }
}

impl FileType {
    /// Whether files of this type go through compression and encryption.
    pub fn is_transformed(&self) -> (r: bool)
        ensures
            r == self@.is_transformed(),
    {
        match self {
            FileType::Document(_) | FileType::Unknown => true,
            _ => false,
        }
    }
}

/// `text` begins with `prefix`.
pub open spec fn starts_with(text: Seq<char>, prefix: Seq<char>) -> bool {
    prefix.len() <= text.len() && text.subrange(0, prefix.len() as int) == prefix
}

/// The file type that a MIME text maps to.
pub open spec fn kind_of_mime(m: Seq<char>) -> FileKind {
    if m == "image/jpeg"@ {
        FileKind::ImageJpeg
    } else if m == "image/png"@ {
        FileKind::ImagePng
    } else if m == "image/gif"@ {
        FileKind::ImageGif
    } else if m == "image/webp"@ {
        FileKind::ImageWebp
    } else if m == "application/pdf"@ {
        FileKind::DocumentPdf
    } else if m == "application/msword"@ {
        FileKind::DocumentDoc
    } else if m == "application/vnd.openxmlformats-officedocument.wordprocessingml.document"@ {
        FileKind::DocumentDocx
    } else if m == "video/mp4"@ {
        FileKind::VideoMp4
    } else if m == "video/x-matroska"@ {
        FileKind::VideoMkv
    } else if m == "video/x-msvideo"@ {
        FileKind::VideoAvi
    } else if m == "audio/mpeg"@ {
        FileKind::AudioMp3
    } else if m == "audio/wav"@ {
        FileKind::AudioWav
    } else if m == "audio/flac"@ {
        FileKind::AudioFlac
    } else if starts_with(m, "image/"@) {
        FileKind::ImageOther(m)
    } else if starts_with(m, "video/"@) {
        FileKind::VideoOther(m)
    } else if starts_with(m, "audio/"@) {
        FileKind::AudioOther(m)
    } else if starts_with(m, "application/"@) {
        FileKind::DocumentOther(m)
    } else {
        FileKind::Unknown
    }
}

/// The MIME type that magic-byte sniffing finds for a buffer, if any.
pub uninterp spec fn sniffed_mime(data: Seq<u8>) -> Option<Seq<char>>;

/// The file type detected for a buffer.
pub open spec fn detected_kind(data: Seq<u8>) -> FileKind {
    match sniffed_mime(data) {
        Some(m) => kind_of_mime(m),
        None => FileKind::Unknown,
    }
}

/// Relies on infer::get and `Type::mime_type`: the MIME type found by the
/// magic bytes at the start of the buffer, which depends on the bytes alone.
#[verifier::external_body]
fn sniff_mime(data: &[u8]) -> (r: Option<String>)
    ensures
        match r {
            Some(m) => sniffed_mime(data@) == Some(m@),
            None => sniffed_mime(data@) == None::<Seq<char>>,
        },
{
    infer::get(data).map(|kind| kind.mime_type().to_string())
}

fn text_is(s: &str, lit: &str) -> (r: bool)
    ensures
        r == (s@ == lit@),
{
    String::from_str(s) == String::from_str(lit)
}

fn text_starts_with(s: &str, prefix: &str) -> (r: bool)
    ensures
        r == starts_with(s@, prefix@),
{
    let n = s.unicode_len();
    let p = prefix.unicode_len();
    if p > n {
        false
    } else {
        text_is(s.substring_char(0, p), prefix)
    }
}

/// Classifies buffers by their magic bytes.
pub struct FileTypeDetector;

impl FileTypeDetector {
    /// The file type that a MIME text maps to: the known types by name, then
    /// `Other` in the image, video, audio and application families, else
    /// `Unknown`.
    pub fn from_mime(mime: &str) -> (r: FileType)
        ensures
            r@ == kind_of_mime(mime@),
    {
        if text_is(mime, "image/jpeg") {
            FileType::Image(ImageType::Jpeg)
        } else if text_is(mime, "image/png") {
            FileType::Image(ImageType::Png)
        } else if text_is(mime, "image/gif") {
            FileType::Image(ImageType::Gif)
        } else if text_is(mime, "image/webp") {
            FileType::Image(ImageType::Webp)
        } else if text_is(mime, "application/pdf") {
            FileType::Document(DocumentType::Pdf)
        } else if text_is(mime, "application/msword") {
            FileType::Document(DocumentType::Doc)
        } else if text_is(
            mime,
            "application/vnd.openxmlformats-officedocument.wordprocessingml.document",
        ) {
            FileType::Document(DocumentType::Docx)
        } else if text_is(mime, "video/mp4") {
            FileType::Video(VideoType::Mp4)
        } else if text_is(mime, "video/x-matroska") {
            FileType::Video(VideoType::Mkv)
        } else if text_is(mime, "video/x-msvideo") {
            FileType::Video(VideoType::Avi)
        } else if text_is(mime, "audio/mpeg") {
            FileType::Audio(AudioType::Mp3)
        } else if text_is(mime, "audio/wav") {
            FileType::Audio(AudioType::Wav)
        } else if text_is(mime, "audio/flac") {
            FileType::Audio(AudioType::Flac)
        } else if text_starts_with(mime, "image/") {
            FileType::Image(ImageType::Other(String::from_str(mime)))
        } else if text_starts_with(mime, "video/") {
            FileType::Video(VideoType::Other(String::from_str(mime)))
        } else if text_starts_with(mime, "audio/") {
            FileType::Audio(AudioType::Other(String::from_str(mime)))
        } else if text_starts_with(mime, "application/") {
            FileType::Document(DocumentType::Other(String::from_str(mime)))
        } else {
            FileType::Unknown
        }
    }

    /// The file type of a buffer, by its magic bytes; `Unknown` when none match.
    pub fn detect(data: &[u8]) -> (r: FileType)
        ensures
            r@ == detected_kind(data@),
    {
        match sniff_mime(data) {
            Some(mime) => Self::from_mime(mime.as_str()),
            None => FileType::Unknown,
        }
    }
}

} // verus!
