//! What becomes of the events of a watched directory.
use crate::messages::watch_not_started;
use vstd::prelude::*;
use vstd::string::*;

verus! {

/// Events that follow each other within this many milliseconds count as one.
pub const DEBOUNCE_MILLIS: u64 = 300;

/// A settled event of a watched directory.
#[derive(Debug)]
pub enum WatchEvent {
    /// Something in the directory changed.
    Changed,
    /// Watching ran into these errors.
    Failed(Vec<String>),
}

/// What is to be done about an event.
#[derive(Debug)]
pub enum WatchAction {
    /// Read the directory again.
    Reload,
    /// Report the trouble in one text.
    Report(String),
}

/// The texts, one after the other, with a separator between each two.
pub open spec fn joined_texts(texts: Seq<String>, separator: Seq<char>) -> Seq<char>
    decreases texts.len(),
{
    if texts.len() == 0 {
        Seq::empty()
    } else if texts.len() == 1 {
        texts[0]@
    } else {
        joined_texts(texts.drop_last(), separator) + separator + texts.last()@
    }
}

fn join_texts(texts: &Vec<String>, separator: &str) -> (res: String)
    ensures
        res@ == joined_texts(texts@, separator@),
{
    let mut res: String = String::new();
    for i in 0..texts.len()
        invariant
            res@ == joined_texts(texts@.take(i as int), separator@),
    {
        assert(texts@.take(i as int + 1).drop_last() == texts@.take(i as int));
        if i > 0 {
            res.append(separator);
        }
        res.append(texts[i].as_str());
        assert(res@ == joined_texts(texts@.take(i as int + 1), separator@));
    }
    assert(texts@.take(texts@.len() as int) == texts@);
    res
}

/// What is to be done about an event: a change asks for the directory to be read
/// again, whatever it was; errors are reported together.
pub fn watch_action(event: WatchEvent) -> (action: WatchAction)
    ensures
        match event {
            WatchEvent::Changed => action is Reload,
            WatchEvent::Failed(errors) => action is Report && action->Report_0@ == joined_texts(
                errors@,
                "; "@,
            ),
        },
{
    match event {
        WatchEvent::Changed => WatchAction::Reload,
        WatchEvent::Failed(errors) => WatchAction::Report(join_texts(&errors, "; ")),
    }
}

/// What comes of the attempt to watch a directory: the watcher, or the text that
/// reports why there is none.
pub fn make_watcher<W>(started: Result<W, String>) -> (res: (Option<W>, Option<String>))
    ensures
        match started {
            Ok(watcher) => res.0 == Some(watcher) && res.1 is None,
            Err(error) => res.0 is None && res.1 is Some && res.1->0@ == "監視を開始できません: "@
                + error@,
        },
{
    match started {
        Ok(watcher) => (Some(watcher), None),
        Err(error) => (None, Some(watch_not_started(error.as_str()))),
    }
}

/// The texts of two lists joined are the texts of the one, the separator, and the texts of
/// the other. A single text is itself, and no text is nothing.
pub proof fn joined_texts_stand_side_by_side(
    a: Seq<String>,
    b: Seq<String>,
    separator: Seq<char>,
    text: String,
)
    ensures
        joined_texts(Seq::empty(), separator) == Seq::<char>::empty(),
        joined_texts(seq![text], separator) == text@,
        a.len() > 0 && b.len() > 0 ==> joined_texts(a + b, separator) == joined_texts(a, separator)
            + separator + joined_texts(b, separator),
    decreases b.len(),
{
    if a.len() > 0 && b.len() > 0 {
        let front = b.drop_last();
        assert((a + b).drop_last() == a + front);
        assert((a + b).last() == b.last());
        if front.len() == 0 {
            assert(a + front == a);
            assert(b[0] == b.last());
        } else {
            joined_texts_stand_side_by_side(a, front, separator, text);
            assert(joined_texts(a + b, separator) == joined_texts(a, separator) + separator
                + joined_texts(b, separator));
        }
    }
}

} // verus!
