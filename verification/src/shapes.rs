//! What the views of values show: each part under its own name, and lists item by item.
use crate::cover_search::{Answer, Question, Told, Want};
use crate::deep_scan::Pending;
use crate::file_item::FileItem;
use crate::folder_load::{LoadStep, LoadTask};
use crate::index_job::{IndexStep, Task};
use crate::items::{entry_of, Art};
use crate::navigation::{Heading, Level, Load, Shown, Title};
use crate::player::{commands, Command, Device, Motion, Order};
use crate::records::{folders_of, found_of, songs_of, FolderRecord, SongRecord, SongScanEntry};
use crate::rows::SongRow;
use crate::scan::{entries_of, DirEntryInfo};
use crate::search::{Plan, SearchPlan};
use crate::store::{row_data, Cell, Datum, Param};
use crate::tags::{lines_of, AudioTags, SongTags, TagRow};
use crate::text::{opt_text, texts};
use crate::window::FolderplayWindow;
use vstd::prelude::*;

verus! {

/// The records of the tables show their columns.
pub proof fn records_show_their_columns(dir: FolderRecord, song: SongRecord, found: SongScanEntry)
    ensures
        dir@.path == dir.path@,
        dir@.name == dir.name@,
        dir@.has_audio == dir.has_audio,
        song@.path == song.path@,
        song@.folder == song.folder@,
        song@.name == song.name@,
        song@.title == song.title@,
        song@.artist == song.artist@,
        song@.album == song.album@,
        song@.year == song.year@,
        song@.format_type == song.format_type@,
        song@.bitrate == song.bitrate,
        song@.sample_rate == song.sample_rate,
        song@.bits_per_sample == song.bits_per_sample,
        song@.duration == song.duration,
        song@.meta_scanned == song.meta_scanned,
        found@.path == found.path@,
        found@.name == found.name@,
        found@.format_type == found.format_type@,
        found@.title == found.title@,
        found@.mtime == found.mtime,
{
}

/// An entry of a folder shows what was found out of it.
pub proof fn dir_entries_show_what_was_found(e: DirEntryInfo, todo: Pending)
    ensures
        e@.name == e.name@,
        e@.path == e.path@,
        e@.kind == e.kind,
        e@.mtime == e.mtime,
        todo@.path == todo.path@,
        todo@.parent == opt_text(todo.parent),
{
}

/// What is known of a song shows its tags and how it sounds.
pub proof fn tags_show_themselves(tags: SongTags, audio: AudioTags)
    ensures
        tags@.path == opt_text(tags.path),
        tags@.title == tags.title@,
        tags@.artist == tags.artist@,
        tags@.album == tags.album@,
        tags@.year == tags.year@,
        tags.audio is None ==> tags@.audio is None,
        tags.audio == Some(audio) ==> tags@.audio == Some(audio@),
        audio@.format == audio.format@,
        audio@.sample_rate == audio.sample_rate,
        audio@.bits_per_sample == audio.bits_per_sample,
        audio@.bitrate == audio.bitrate,
        audio@.duration == audio.duration,
        audio@.channels == audio.channels,
        audio@.genre == audio.genre@,
        audio@.track_number == audio.track_number,
{
}

/// A row of the list shows its parts.
pub proof fn rows_show_their_parts(row: SongRow, badge: &'static str)
    ensures
        row@.now_playing == row.now_playing,
        row.badge is None ==> row@.badge is None,
        row.badge == Some(badge) ==> row@.badge == Some(badge@),
        row@.title == row.title@,
        row@.artist == opt_text(row.artist),
        row@.format == row.format@,
        row@.hires == row.hires,
        row@.quality == row.quality@,
        row@.duration == row.duration@,
{
}

/// An entry that is shown has its own cover, and takes that of its folder where it is told to.
pub proof fn entries_show_their_art(item: FileItem<Art>, bytes: Vec<u8>, or_folder: bool)
    ensures
        item@.cover_thumb == Some(Art { own: Some(bytes), or_folder }) ==> entry_of(item).own
            == Some(bytes@),
        item@.cover_thumb == Some(Art { own: None, or_folder }) ==> entry_of(item).own is None,
        item@.cover_thumb matches Some(art) ==> entry_of(item).or_folder == art.or_folder,
        item@.cover_thumb is None ==> entry_of(item).own is None && !entry_of(item).or_folder,
        entry_of(item).item.path == item@.path,
        entry_of(item).item.name == item@.name,
        entry_of(item).item.is_folder == item@.is_folder,
        entry_of(item).item.title == item@.title,
        entry_of(item).item.artist == item@.artist,
        entry_of(item).item.album == item@.album,
        entry_of(item).item.year == item@.year,
        entry_of(item).item.format_type == item@.format_type,
        entry_of(item).item.bitrate == item@.bitrate,
        entry_of(item).item.sample_rate == item@.sample_rate,
        entry_of(item).item.bits_per_sample == item@.bits_per_sample,
        entry_of(item).item.duration == item@.duration,
{
}

/// The window shows its parts.
pub proof fn windows_show_their_parts(window: FolderplayWindow)
    ensures
        window@.deck == window.queue@,
        window@.trail == window.nav@,
        window@.panel == window.panel,
        window@.known == window.tags@,
        window@.external == window.external,
{
}

/// A search for a cover asks what it says, and is told what was answered.
pub proof fn questions_are_asked(path: String, bytes: Vec<u8>, entries: Vec<DirEntryInfo>)
    ensures
        Want::File(path)@ == Question::File(path@),
        Want::Kept(path)@ == Question::Kept(path@),
        Want::Listing(path)@ == Question::Listing(path@),
        Want::Art(path)@ == Question::Art(path@),
        Want::Nothing@ == Question::Nothing,
        Answer::Picture(Some(bytes))@ == Told::Picture(Some(bytes@)),
        Answer::Picture(None)@ == Told::Picture(None),
        Answer::Entries(Some(entries))@ == Told::Entries(Some(entries_of(entries@))),
        Answer::Entries(None)@ == Told::Entries(None),
{
}

/// The steps of loading a folder and of reading the library are what they say.
pub proof fn steps_are_what_they_say(path: String, parent: Option<String>)
    ensures
        LoadStep::Wait@ == LoadTask::Wait,
        LoadStep::Scan(parent)@ == LoadTask::Scan(opt_text(parent)),
        LoadStep::Flag@ == LoadTask::Flag,
        LoadStep::Show@ == LoadTask::Show,
        LoadStep::Enrich@ == LoadTask::Enrich,
        LoadStep::Stop@ == LoadTask::Stop,
        IndexStep::Scan(path)@ == Task::Scan(path@),
        IndexStep::ShowCovers@ == Task::ShowCovers,
        IndexStep::Discover(path)@ == Task::Discover(path@),
        IndexStep::List(path)@ == Task::List(path@),
        IndexStep::Reload@ == Task::Reload,
        IndexStep::Queue@ == Task::Queue,
        IndexStep::Enrich@ == Task::Enrich,
        IndexStep::Stop@ == Task::Stop,
{
}

/// The headings, and what is loaded, are what they say.
pub proof fn headings_are_what_they_say(s: String, list: Vec<String>, level: Level)
    ensures
        Heading::Folders@ == Title::Folders,
        Heading::Folder@ == Title::Folder,
        Heading::Named(s)@ == Title::Named(s@),
        Heading::Search(s)@ == Title::Search(s@),
        Load::Nothing@ == Shown::Nothing,
        Load::Folder(s)@ == Shown::Folder(s@),
        Load::Folders(list)@ == Shown::Folders(texts(list@)),
        Load::Reset@ == Shown::Reset,
        Load::Choose@ == Shown::Choose,
        level@.folder == opt_text(level.folder),
        level@.title == level.heading@,
{
}

/// The orders of the player are what they say.
pub proof fn orders_are_what_they_say(m: Motion, s: String, b: bool, d: Device)
    ensures
        Order::Go(m)@ == Command::Go(m),
        Order::Load(s)@ == Command::Load(s@),
        Order::Watch@ == Command::Watch,
        Order::Unwatch@ == Command::Unwatch,
        Order::TellState(b)@ == Command::TellState(b),
        Order::TellFinished@ == Command::TellFinished,
        Order::Allow(s)@ == Command::Allow(s@),
        Order::WriteConfig@ == Command::WriteConfig,
        Order::DirectSink(d)@ == Command::DirectSink(d),
        Order::CommonSink@ == Command::CommonSink,
{
}

/// What is searched for is what the plan says.
pub proof fn plans_are_what_they_say(c: char, s: String, list: Vec<String>)
    ensures
        SearchPlan::Clear@ == Plan::Clear,
        SearchPlan::Jump(c)@ == Plan::Jump(c),
        SearchPlan::Find(s, list)@ == Plan::Find(s@, texts(list@)),
{
}

/// Values go to the database, and come from it, as they are.
pub proof fn values_are_what_they_say(n: i64, s: String, b: Vec<u8>)
    ensures
        Param::Null@ == Datum::Null,
        Param::Integer(n)@ == Datum::Integer(n as int),
        Param::Text(s)@ == Datum::Text(s@),
        Param::Blob(b)@ == Datum::Blob(b@),
        Cell::Null@ == Datum::Null,
        Cell::Integer(n)@ == Datum::Integer(n as int),
        Cell::Real@ == Datum::Real,
        Cell::Text(s)@ == Datum::Text(s@),
        Cell::Blob(b)@ == Datum::Blob(b@),
{
}

/// Texts are seen one by one.
pub proof fn texts_are_seen_one_by_one(list: Seq<String>, s: String, i: int)
    ensures
        texts(list).len() == list.len(),
        0 <= i < list.len() ==> texts(list)[i] == list[i]@,
        opt_text(Some(s)) == Some(s@),
        opt_text(None) is None,
{
}

/// Lists are seen item by item.
pub proof fn lists_are_seen_item_by_item(
    dirs: Seq<FolderRecord>,
    songs: Seq<SongRecord>,
    found: Seq<SongScanEntry>,
    entries: Seq<DirEntryInfo>,
    cells: Seq<Cell>,
    orders: Seq<Order>,
    lines: Seq<TagRow>,
    i: int,
)
    ensures
        folders_of(dirs).len() == dirs.len(),
        songs_of(songs).len() == songs.len(),
        found_of(found).len() == found.len(),
        entries_of(entries).len() == entries.len(),
        row_data(cells).len() == cells.len(),
        commands(orders).len() == orders.len(),
        lines_of(lines).len() == lines.len(),
        0 <= i < dirs.len() ==> folders_of(dirs)[i] == dirs[i]@,
        0 <= i < songs.len() ==> songs_of(songs)[i] == songs[i]@,
        0 <= i < found.len() ==> found_of(found)[i] == found[i]@,
        0 <= i < entries.len() ==> entries_of(entries)[i] == entries[i]@,
        0 <= i < cells.len() ==> row_data(cells)[i] == cells[i]@,
        0 <= i < orders.len() ==> commands(orders)[i] == orders[i]@,
        0 <= i < lines.len() ==> lines_of(lines)[i].0 == lines[i].label@,
        0 <= i < lines.len() ==> lines_of(lines)[i].1 == lines[i].value@,
{
}

} // verus!
