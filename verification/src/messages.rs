//! The texts of the status bar that report a failure.
use vstd::prelude::*;
use vstd::string::*;

verus! {

fn with_detail(text: &str, detail: &str) -> (res: String)
    ensures
        res@ == text@ + detail@,
{
    let mut res: String = text.to_string();
    res.append(detail);
    res
}

/// A file could not be opened with its application.
pub fn open_failed(detail: &str) -> (res: String)
    ensures
        res@ == "開けませんでした: "@ + detail@,
{
    with_detail("開けませんでした: ", detail)
}

/// A directory could not be read.
pub fn load_failed(detail: &str) -> (res: String)
    ensures
        res@ == "読み込みに失敗しました: "@ + detail@,
{
    with_detail("読み込みに失敗しました: ", detail)
}

/// A directory that was being watched cannot be watched any longer.
pub fn watch_failed(detail: &str) -> (res: String)
    ensures
        res@ == "監視エラー: "@ + detail@,
{
    with_detail("監視エラー: ", detail)
}

/// A directory cannot be watched in the first place.
pub fn watch_not_started(detail: &str) -> (res: String)
    ensures
        res@ == "監視を開始できません: "@ + detail@,
{
    with_detail("監視を開始できません: ", detail)
}

/// The text of the status bar once a directory is shown: why it could not be read, else why
/// it cannot be watched, else nothing.
pub fn status_text(read_error: String, watch_error: Option<String>) -> (res: String)
    ensures
        res@ == (if read_error@.len() > 0 {
            read_error@
        } else {
            match watch_error {
                Some(error) => error@,
                None => Seq::empty(),
            }
        }),
{
    if !read_error.as_str().is_empty() {
        return read_error;
    }
    match watch_error {
        Some(error) => error,
        None => String::new(),
    }
}

} // verus!
