//! Sounds, as commands of the media control interface.

use vstd::prelude::*;

use crate::paths::{join, joined_path};
use crate::picking::{is_pick, lemma_pick_grows};
use crate::text::views;

verus! {

/// One sound of the overlay.
pub struct Track {
    pub alias: String,
    pub path: String,
    pub device_type: String,
    /// The volume in thousandths, in figures.
    pub volume: String,
}

/// What a [`Track`] reads.
#[verifier::ext_equal]
pub struct TrackView {
    pub alias: Seq<char>,
    pub path: Seq<char>,
    pub device_type: Seq<char>,
    pub volume: Seq<char>,
}

impl View for Track {
    type V = TrackView;

    open spec fn view(&self) -> TrackView {
        TrackView {
            alias: self.alias@,
            path: self.path@,
            device_type: self.device_type@,
            volume: self.volume@,
        }
    }
}

pub open spec fn track_views(tracks: Seq<Track>) -> Seq<TrackView> {
    Seq::new(tracks.len(), |i: int| tracks[i]@)
}

/// A sound of the asset directory.
pub open spec fn sound(
    assets: Seq<char>,
    alias: Seq<char>,
    file: Seq<char>,
    device_type: Seq<char>,
    volume: Seq<char>,
) -> TrackView {
    TrackView {
        alias,
        path: joined_path(joined_path(assets, "音频"@), file),
        device_type,
        volume,
    }
}

/// All sounds of the overlay.
pub open spec fn sounds(assets: Seq<char>) -> Seq<TrackView> {
    seq![
        sound(assets, "monster_bgm"@, "bgm(1).mp3"@, "mpegvideo"@, "500"@),
        sound(assets, "monster_talk"@, "monster-talk.wav"@, "waveaudio"@, "1000"@),
        sound(assets, "monster_boom"@, "monster-boom.wav"@, "waveaudio"@, "300"@),
    ]
}

fn track(assets: &str, alias: &str, file: &str, device_type: &str, volume: &str) -> (track: Track)
    ensures
        track@ == sound(assets@, alias@, file@, device_type@, volume@),
{
    let directory = join(assets, "音频");
    Track {
        alias: alias.to_owned(),
        path: join(directory.as_str(), file),
        device_type: device_type.to_owned(),
        volume: volume.to_owned(),
    }
}

/// The sounds of the overlay, whose files are in the directory `assets`.
pub fn tracks(assets: &str) -> (list: Vec<Track>)
    ensures
        track_views(list@) == sounds(assets@),
{
    let mut list: Vec<Track> = Vec::new();
    list.push(track(assets, "monster_bgm", "bgm(1).mp3", "mpegvideo", "500"));
    list.push(track(assets, "monster_talk", "monster-talk.wav", "waveaudio", "1000"));
    list.push(track(assets, "monster_boom", "monster-boom.wav", "waveaudio", "300"));
    assert(track_views(list@) =~= sounds(assets@));
    list
}

impl Track {
    /// The command that opens the sound.
    pub fn open_command(&self) -> (command: String)
        ensures
            command@ == "open \""@ + self@.path + "\" type "@ + self@.device_type + " alias "@
                + self@.alias,
    {
        let mut command = "open \"".to_owned();
        command.append(self.path.as_str());
        command.append("\" type ");
        command.append(self.device_type.as_str());
        command.append(" alias ");
        command.append(self.alias.as_str());
        command
    }

    /// The command that sets the volume of the sound.
    pub fn volume_command(&self) -> (command: String)
        ensures
            command@ == "setaudio "@ + self@.alias + " volume to "@ + self@.volume,
    {
        let mut command = "setaudio ".to_owned();
        command.append(self.alias.as_str());
        command.append(" volume to ");
        command.append(self.volume.as_str());
        command
    }
}

/// The sounds that are open.
pub struct Audio {
    pub aliases: Vec<String>,
}

/// The aliases of those tracks that are ready, in their order.
pub open spec fn ready_aliases(tracks: Seq<TrackView>, ready: Seq<bool>) -> Seq<Seq<char>>
    decreases tracks.len(),
{
    if tracks.len() == 0 {
        Seq::empty()
    } else {
        let before = ready_aliases(tracks.drop_last(), ready);
        if ready[tracks.len() - 1] {
            before.push(tracks.last().alias)
        } else {
            before
        }
    }
}

/// A command on one sound.
pub open spec fn order(verb: Seq<char>, alias: Seq<char>) -> Seq<char> {
    verb + alias
}

/// The commands that end the sounds.
pub open spec fn endings(aliases: Seq<Seq<char>>) -> Seq<Seq<char>>
    decreases aliases.len(),
{
    if aliases.len() == 0 {
        Seq::empty()
    } else {
        endings(aliases.drop_last()) + seq![
            order("stop "@, aliases.last()),
            order("close "@, aliases.last()),
        ]
    }
}

fn ordered(verb: &str, alias: &str) -> (command: String)
    ensures
        command@ == order(verb@, alias@),
{
    let mut command = verb.to_owned();
    command.append(alias);
    command
}

impl Audio {
    /// The sounds that are open when of `tracks` those are `ready` that were
    /// found and could be opened.
    pub fn new(tracks: &Vec<Track>, ready: &Vec<bool>) -> (audio: Self)
        requires
            ready@.len() == tracks@.len(),
        ensures
            views(audio.aliases@) == ready_aliases(track_views(tracks@), ready@),
    {
        let mut aliases: Vec<String> = Vec::new();
        let ghost all = track_views(tracks@);
        let mut i: usize = 0;
        assert(views(aliases@) =~= Seq::<Seq<char>>::empty());
        while i < tracks.len()
            invariant
                i <= tracks@.len(),
                ready@.len() == tracks@.len(),
                all == track_views(tracks@),
                views(aliases@) == ready_aliases(all.take(i as int), ready@),
            decreases tracks@.len() - i,
        {
            let ghost before = views(aliases@);
            if ready[i] {
                aliases.push(tracks[i].alias.clone());
                assert(views(aliases@) =~= before.push(all[i as int].alias));
            }
            i = i + 1;
            assert(all.take(i as int).drop_last() =~= all.take(i - 1));
        }
        assert(all.take(i as int) =~= all);
        Audio { aliases }
    }

    /// The command that plays the music without end.
    pub fn play_loop(&self) -> (command: String)
        ensures
            command@ == "play monster_bgm repeat"@,
    {
        "play monster_bgm repeat".to_owned()
    }

    /// The commands that play a sound from its start.
    pub fn play(&self, alias: &str) -> (commands: Vec<String>)
        ensures
            views(commands@) == seq![
                order("stop "@, alias@),
                order("seek "@, alias@) + " to start"@,
                order("play "@, alias@),
            ],
    {
        let mut commands: Vec<String> = Vec::new();
        commands.push(ordered("stop ", alias));
        let mut seek = ordered("seek ", alias);
        seek.append(" to start");
        commands.push(seek);
        commands.push(ordered("play ", alias));
        assert(views(commands@) =~= seq![
            order("stop "@, alias@),
            order("seek "@, alias@) + " to start"@,
            order("play "@, alias@),
        ]);
        commands
    }

    /// The commands that stop and close every open sound.
    pub fn close(&self) -> (commands: Vec<String>)
        ensures
            views(commands@) == endings(views(self.aliases@)),
    {
        let mut commands: Vec<String> = Vec::new();
        let ghost all = views(self.aliases@);
        let mut i: usize = 0;
        assert(views(commands@) =~= Seq::<Seq<char>>::empty());
        while i < self.aliases.len()
            invariant
                i <= self.aliases@.len(),
                all == views(self.aliases@),
                views(commands@) == endings(all.take(i as int)),
            decreases self.aliases@.len() - i,
        {
            let ghost before = views(commands@);
            commands.push(ordered("stop ", self.aliases[i].as_str()));
            commands.push(ordered("close ", self.aliases[i].as_str()));
            assert(views(commands@) =~= before + seq![
                order("stop "@, all[i as int]),
                order("close "@, all[i as int]),
            ]);
            i = i + 1;
            assert(all.take(i as int).drop_last() =~= all.take(i - 1));
        }
        assert(all.take(i as int) =~= all);
        commands
    }
}

/// The sounds that were found and opened are the ones that are known as open, in
/// their order.
pub proof fn law_ready_sounds_are_open(tracks: Seq<TrackView>, ready: Seq<bool>)
    ensures
        is_pick(
            ready_aliases(tracks, ready),
            tracks.len(),
            |k: int| ready[k],
            |k: int| tracks[k].alias,
        ),
    decreases tracks.len(),
{
    if tracks.len() > 0 {
        let front = tracks.drop_last();
        law_ready_sounds_are_open(front, ready);
        lemma_pick_grows(
            ready_aliases(front, ready),
            |k: int| ready[k],
            |k: int| front[k].alias,
            ready_aliases(tracks, ready),
            tracks.len(),
            |k: int| ready[k],
            |k: int| tracks[k].alias,
        );
    }
}

/// Every open sound is stopped and then closed, one after the other, and no other
/// command is given.
pub proof fn law_every_sound_is_closed(aliases: Seq<Seq<char>>, i: int)
    requires
        0 <= i < aliases.len(),
    ensures
        endings(aliases).len() == 2 * aliases.len(),
        endings(aliases)[2 * i] == "stop "@ + aliases[i],
        endings(aliases)[2 * i + 1] == "close "@ + aliases[i],
{
    lemma_endings(aliases);
}

proof fn lemma_endings(aliases: Seq<Seq<char>>)
    ensures
        endings(aliases).len() == 2 * aliases.len(),
        forall|i: int|
            0 <= i < aliases.len() ==> endings(aliases)[2 * i] == "stop "@ + #[trigger] aliases[i]
                && endings(aliases)[2 * i + 1] == "close "@ + aliases[i],
    decreases aliases.len(),
{
    if aliases.len() > 0 {
        let front = aliases.drop_last();
        lemma_endings(front);
        assert forall|i: int| 0 <= i < aliases.len() implies endings(aliases)[2 * i] == "stop "@
            + #[trigger] aliases[i] && endings(aliases)[2 * i + 1] == "close "@ + aliases[i] by {
            if i < front.len() {
                assert(front[i] == aliases[i]);
                assert(endings(front)[2 * i] == "stop "@ + front[i]);
            }
        }
    }
}

/// There are three sounds below the assets: the music, which is a film to the player
/// and half as loud as it could be, the monster's voice at full volume, and the
/// explosion at less than a third. The music that is played without end is the first
/// of them.
pub proof fn law_sounds_of_the_overlay(assets: Seq<char>)
    ensures
        ({
            let list = sounds(assets);
            let directory = joined_path(assets, "音频"@);
            &&& list.len() == 3
            &&& list[0].alias == "monster_bgm"@ && list[0].path == joined_path(
                directory,
                "bgm(1).mp3"@,
            ) && list[0].device_type == "mpegvideo"@ && list[0].volume == "500"@
            &&& list[1].alias == "monster_talk"@ && list[1].path == joined_path(
                directory,
                "monster-talk.wav"@,
            ) && list[1].device_type == "waveaudio"@ && list[1].volume == "1000"@
            &&& list[2].alias == "monster_boom"@ && list[2].path == joined_path(
                directory,
                "monster-boom.wav"@,
            ) && list[2].device_type == "waveaudio"@ && list[2].volume == "300"@
        }),
        "play monster_bgm repeat"@ == "play "@ + sounds(assets)[0].alias + " repeat"@,
{
    reveal_strlit("play monster_bgm repeat");
    reveal_strlit("play ");
    reveal_strlit("monster_bgm");
    reveal_strlit(" repeat");
    assert("play monster_bgm repeat"@ =~= "play "@ + "monster_bgm"@ + " repeat"@);
}

/// A command on a sound is its verb and the sound's name.
pub proof fn law_commands_name_their_sound(verb: Seq<char>, alias: Seq<char>)
    ensures
        order(verb, alias) == verb + alias,
        order(verb, alias).len() == verb.len() + alias.len(),
{
}

} // verus!
