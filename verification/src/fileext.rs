use vstd::prelude::*;

verus! {

/// The kind of a file, by its extension.
#[derive(Clone, Eq, PartialEq, Debug, Hash)]
pub enum FileExt {
    /// The file does not have an extension.
    NoExtension,
    /// The file has an extension, but it is unsupported.
    Unsupported(String),
    // Image formats
    Png,
    Jpg,
    Jpeg,
    // Markup formats
    Toml,
    Json,
    Ron,
}

/// The extension text of each supported kind of file.
pub open spec fn ext_text(e: FileExt) -> Seq<char> {
    match e {
        FileExt::Png => "png"@,
        FileExt::Jpg => "jpg"@,
        FileExt::Jpeg => "jpeg"@,
        FileExt::Toml => "toml"@,
        FileExt::Json => "json"@,
        FileExt::Ron => "ron"@,
        FileExt::Unsupported(s) => s@,
        FileExt::NoExtension => ""@,
    }
}

/// Whether two strings hold the same text.
pub(crate) fn same_text(a: &str, b: &str) -> (r: bool)
    ensures
        r == (a@ == b@),
{
    a.to_owned() == b.to_owned()
}

impl FileExt {
    /// The image formats.
    pub fn image_formats() -> (r: Vec<FileExt>)
        ensures
            r@ == seq![FileExt::Png, FileExt::Jpeg, FileExt::Jpg],
    {
        let mut v = Vec::new();
        v.push(FileExt::Png);
        v.push(FileExt::Jpeg);
        v.push(FileExt::Jpg);
        assert(v@ =~= seq![FileExt::Png, FileExt::Jpeg, FileExt::Jpg]);
        v
    }

    pub fn is_image_file(&self) -> (r: bool)
        ensures
            r == (*self is Png || *self is Jpg || *self is Jpeg),
    {
        matches!(*self, FileExt::Png | FileExt::Jpg | FileExt::Jpeg)
    }

    pub fn is_markup_file(&self) -> (r: bool)
        ensures
            r == (*self is Ron || *self is Toml || *self is Json),
    {
        matches!(*self, FileExt::Ron | FileExt::Toml | FileExt::Json)
    }

    pub fn is_none(&self) -> (r: bool)
        ensures
            r == (*self is NoExtension),
    {
        matches!(*self, FileExt::NoExtension)
    }

    pub fn is_unsupported(&self) -> (r: bool)
        ensures
            r == (*self is Unsupported),
    {
        matches!(*self, FileExt::Unsupported(_))
    }

    /// The extension text.
    pub fn as_str(&self) -> (r: &str)
        ensures
            r@ == ext_text(*self),
    {
        match self {
            FileExt::Png => "png",
            FileExt::Jpg => "jpg",
            FileExt::Jpeg => "jpeg",
            FileExt::Toml => "toml",
            FileExt::Json => "json",
            FileExt::Ron => "ron",
            FileExt::Unsupported(s) => s.as_str(),
            FileExt::NoExtension => "",
        }
    }

    /// The kind of a file with this extension text, if it has one. Text that is not one of the
    /// supported extensions gives `Unsupported` with that text.
    pub fn from_extension(ext: Option<&str>) -> (r: FileExt)
        ensures
            ext is None ==> r == FileExt::NoExtension,
            ext is Some ==> {
                let e = ext.unwrap();
                &&& e@ == "png"@ ==> r == FileExt::Png
                &&& e@ == "jpg"@ ==> r == FileExt::Jpg
                &&& e@ == "jpeg"@ ==> r == FileExt::Jpeg
                &&& e@ == "toml"@ ==> r == FileExt::Toml
                &&& e@ == "json"@ ==> r == FileExt::Json
                &&& e@ == "ron"@ ==> r == FileExt::Ron
                &&& (e@ != "png"@ && e@ != "jpg"@ && e@ != "jpeg"@ && e@ != "toml"@ && e@
                    != "json"@ && e@ != "ron"@) ==> (r matches FileExt::Unsupported(s) && s@
                    == e@)
            },
            ext is Some ==> ext_text(r) == ext.unwrap()@,
    {
        proof {
            reveal_strlit("png");
            reveal_strlit("jpg");
            reveal_strlit("jpeg");
            reveal_strlit("toml");
            reveal_strlit("json");
            reveal_strlit("ron");
            assert("png"@[0] == 'p' && "jpg"@[0] == 'j' && "jpeg"@[0] == 'j' && "toml"@[0] == 't'
                && "json"@[0] == 'j' && "ron"@[0] == 'r');
            assert("jpg"@.len() == 3 && "jpeg"@.len() == 4 && "json"@.len() == 4);
            assert("jpeg"@[1] == 'p' && "json"@[1] == 's');
        }
        match ext {
            None => FileExt::NoExtension,
            Some(e) => {
                if same_text(e, "png") {
                    FileExt::Png
                } else if same_text(e, "jpg") {
                    FileExt::Jpg
                } else if same_text(e, "jpeg") {
                    FileExt::Jpeg
                } else if same_text(e, "toml") {
                    FileExt::Toml
                } else if same_text(e, "json") {
                    FileExt::Json
                } else if same_text(e, "ron") {
                    FileExt::Ron
                } else {
                    FileExt::Unsupported(e.to_owned())
                }
            },
        }
    }
}

} // verus!
