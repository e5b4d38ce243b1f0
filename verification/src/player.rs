//! What the player does: which orders the sound system gets, and when.
use crate::text::{decimal, digits, glued, join, joined, opt_text, same, texts};
use vstd::prelude::*;

verus! {

/// The sample rates that sound passes through unchanged, in hertz.
pub const HIFI_RATES: [u32; 8] = [44100, 48000, 88200, 96000, 176400, 192000, 352800, 384000];

/// The sample rates of the common output, in hertz.
pub const STD_RATES: [u32; 2] = [44100, 48000];

/// How often the position is asked for while a song is played, in milliseconds.
pub const POLL_INTERVAL: u64 = 500;

/// For how long after a jump the position is not followed, in microseconds.
pub const SEEK_REST: i64 = 800000;

/// Rates as the sound system reads them.
pub open spec fn rates_text(rates: Seq<u32>) -> Seq<char> {
    "[ "@ + joined(rates.map_values(|r: u32| digits(r as nat)), ", "@) + " ]"@
}

/// Rates as the sound system reads them.
pub fn rates_str(rates: &[u32]) -> (r: String)
    ensures
        r@ == rates_text(rates@),
{
    let ghost f = |r: u32| digits(r as nat);
    let mut parts: Vec<String> = Vec::new();
    for i in 0..rates.len()
        invariant
            f == (|r: u32| digits(r as nat)),
            texts(parts@) == rates@.map_values(f).take(i as int),
    {
        let ghost before = parts@;
        let d = decimal(rates[i] as u64);
        parts.push(d);
        assert(texts(parts@) =~= texts(before).push(d@));
        assert(rates@.map_values(f).take(i + 1) =~= rates@.map_values(f).take(i as int).push(d@));
    }
    assert(rates@.map_values(f).take(rates@.len() as int) =~= rates@.map_values(f));
    let mut r = glued("[ ", join(&parts, ", ").as_str());
    r.append(" ]");
    r
}

/// The file that allows the sound system all rates.
pub open spec fn config_text() -> Seq<char> {
    "# Added by FolderPlay for Hi-Res playback\ncontext.properties = {\ndefault.clock.allowed-rates = "@
        + rates_text(HIFI_RATES@) + "\n}\n"@
}

/// The file that allows the sound system all rates.
pub fn hifi_config() -> (r: String)
    ensures
        r@ == config_text(),
{
    let mut r = glued(
        "# Added by FolderPlay for Hi-Res playback\ncontext.properties = {\ndefault.clock.allowed-rates = ",
        rates_str(&HIFI_RATES).as_str(),
    );
    r.append("\n}\n");
    r
}

/// What the sound system is to do.
#[derive(Debug, Clone, Copy, PartialEq, Eq, Structural)]
pub enum Motion {
    Null,
    Paused,
    Playing,
}

/// A device that sound can go straight to.
#[derive(Debug, Clone, Copy, PartialEq, Eq, Structural)]
pub enum Device {
    PipeWire,
    Alsa,
}

/// An order of the player.
pub enum Order {
    /// The sound system goes to a state.
    Go(Motion),
    /// A song is put in.
    Load(String),
    /// The position is asked for from now on, again and again.
    Watch,
    /// The position is not asked for any more.
    Unwatch,
    /// All listen: sound began or ended.
    TellState(bool),
    /// All listen: a song has ended.
    TellFinished,
    /// The sound system is to allow these rates.
    Allow(String),
    /// The file that allows all rates is written, where there is none.
    WriteConfig,
    /// Sound goes straight to a device.
    DirectSink(Device),
    /// Sound goes through the common output.
    CommonSink,
}

/// The content of an `Order`.
pub enum Command {
    Go(Motion),
    Load(Seq<char>),
    Watch,
    Unwatch,
    TellState(bool),
    TellFinished,
    Allow(Seq<char>),
    WriteConfig,
    DirectSink(Device),
    CommonSink,
}

impl View for Order {
    type V = Command;

    open spec fn view(&self) -> Command {
        match *self {
            Order::Go(m) => Command::Go(m),
            Order::Load(s) => Command::Load(s@),
            Order::Watch => Command::Watch,
            Order::Unwatch => Command::Unwatch,
            Order::TellState(b) => Command::TellState(b),
            Order::TellFinished => Command::TellFinished,
            Order::Allow(s) => Command::Allow(s@),
            Order::WriteConfig => Command::WriteConfig,
            Order::DirectSink(d) => Command::DirectSink(d),
            Order::CommonSink => Command::CommonSink,
        }
    }
}

/// The contents of orders.
pub open spec fn commands(orders: Seq<Order>) -> Seq<Command> {
    orders.map_values(|o: Order| o@)
}

/// The player of songs.
pub struct AudioPlayer {
    uri: Option<String>,
    is_playing: bool,
    watching: bool,
}

/// The content of an `AudioPlayer`: the song that was put in, whether it sounds,
/// and whether the position is asked for.
pub struct Machine {
    pub uri: Option<Seq<char>>,
    pub is_playing: bool,
    pub watching: bool,
}

impl View for AudioPlayer {
    type V = Machine;

    closed spec fn view(&self) -> Machine {
        Machine {
            uri: opt_text(self.uri),
            is_playing: self.is_playing,
            watching: self.watching,
        }
    }
}

/// The player after it was stopped.
pub open spec fn stopped(m: Machine) -> Machine {
    Machine { is_playing: false, watching: false, ..m }
}

/// The orders that stop the player.
pub open spec fn stop_orders(m: Machine) -> Seq<Command> {
    if m.watching {
        seq![Command::Go(Motion::Null), Command::Unwatch]
    } else {
        seq![Command::Go(Motion::Null)]
    }
}

/// The orders that begin a song.
pub open spec fn begin_orders(uri: Seq<char>) -> Seq<Command> {
    seq![Command::Load(uri), Command::Go(Motion::Playing)]
}

/// The player after the sound system began or ended to sound.
pub open spec fn noticed(m: Machine, playing: bool) -> Machine {
    if playing == m.is_playing {
        m
    } else {
        Machine { is_playing: playing, watching: playing, ..m }
    }
}

/// The orders that follow when the sound system began or ended to sound. Nothing
/// follows where the player knows it already.
pub open spec fn notice_orders(m: Machine, playing: bool) -> Seq<Command> {
    if playing == m.is_playing {
        Seq::empty()
    } else if playing {
        if m.watching {
            seq![Command::TellState(true)]
        } else {
            seq![Command::Watch, Command::TellState(true)]
        }
    } else {
        if m.watching {
            seq![Command::Unwatch, Command::TellState(false)]
        } else {
            seq![Command::TellState(false)]
        }
    }
}

/// The device that sound goes straight to: PipeWire where it is present, else ALSA.
pub open spec fn direct_device(pipewire: bool, alsa: bool) -> Option<Device> {
    if pipewire {
        Some(Device::PipeWire)
    } else if alsa {
        Some(Device::Alsa)
    } else {
        None
    }
}

/// The orders that set up an output, by which devices are present. Any other output
/// than the two named ones is automatic: straight to PipeWire where it is present,
/// else the common output.
pub open spec fn output_orders(output: Seq<char>, pipewire: bool, alsa: bool) -> Seq<Command> {
    let allow_all = seq![Command::Allow(rates_text(HIFI_RATES@)), Command::WriteConfig];
    if output == "hifi"@ {
        match direct_device(pipewire, alsa) {
            Some(device) => allow_all.push(Command::DirectSink(device)),
            None => allow_all,
        }
    } else if output == "standard"@ {
        seq![Command::Allow(rates_text(STD_RATES@)), Command::CommonSink]
    } else if pipewire {
        allow_all.push(Command::DirectSink(Device::PipeWire))
    } else {
        seq![Command::CommonSink]
    }
}

/// The automatic output goes by PipeWire alone: where it is present, it is set up as
/// the output of high quality; else sound goes through the common output, whether or
/// not there is ALSA.
pub proof fn automatic_goes_by_pipewire(output: Seq<char>, alsa: bool)
    requires
        output != "hifi"@,
        output != "standard"@,
    ensures
        output_orders(output, true, alsa) == output_orders("hifi"@, true, alsa),
        output_orders(output, false, alsa) == seq![Command::CommonSink],
        output_orders(output, false, alsa).last() == output_orders(
            "standard"@,
            false,
            alsa,
        ).last(),
{
    reveal_strlit("hifi");
    reveal_strlit("standard");
    assert("hifi"@.len() != "standard"@.len());
}

/// The position is asked for only while a song sounds.
pub open spec fn sound_machine(m: Machine) -> bool {
    m.watching ==> m.is_playing
}

/// Whatever the player does, the position is asked for only while a song sounds.
pub proof fn player_stays_sound(m: Machine, playing: bool, uri: Seq<char>)
    requires
        sound_machine(m),
    ensures
        sound_machine(stopped(m)),
        sound_machine(noticed(m, playing)),
        sound_machine(Machine { uri: Some(uri), ..stopped(m) }),
{
}

/// A stopped player is silent, and stopping it again changes nothing.
pub proof fn stopping_twice_is_stopping_once(m: Machine)
    ensures
        !stopped(m).is_playing,
        stopped(stopped(m)) == stopped(m),
        stop_orders(stopped(m)) == seq![Command::Go(Motion::Null)],
{
}

/// What the sound system reports twice is told once.
pub proof fn news_is_told_once(m: Machine, playing: bool)
    ensures
        notice_orders(noticed(m, playing), playing).len() == 0,
        noticed(noticed(m, playing), playing) == noticed(m, playing),
{
}

impl AudioPlayer {
    /// A player without a song.
    pub fn new() -> (r: AudioPlayer)
        ensures
            r@ == (Machine { uri: None, is_playing: false, watching: false }),
    {
        AudioPlayer { uri: None, is_playing: false, watching: false }
    }

    /// Whether a song sounds.
    pub fn is_playing(&self) -> (r: bool)
        ensures
            r == self@.is_playing,
    {
        self.is_playing
    }

    /// Stops the player.
    pub fn stop(&mut self) -> (r: Vec<Order>)
        ensures
            final(self)@ == stopped(old(self)@),
            commands(r@) == stop_orders(old(self)@),
    {
        let mut r: Vec<Order> = Vec::new();
        r.push(Order::Go(Motion::Null));
        if self.watching {
            r.push(Order::Unwatch);
        }
        assert(commands(r@) =~= stop_orders(old(self)@));
        self.watching = false;
        self.is_playing = false;
        r
    }

    /// Stops the player for good.
    pub fn cleanup(&mut self) -> (r: Vec<Order>)
        ensures
            final(self)@ == stopped(old(self)@),
            commands(r@) == stop_orders(old(self)@),
    {
        self.stop()
    }

    /// Plays a song from its beginning.
    pub fn play_uri(&mut self, uri: &str) -> (r: Vec<Order>)
        ensures
            final(self)@ == (Machine { uri: Some(uri@), ..stopped(old(self)@) }),
            commands(r@) == stop_orders(old(self)@) + begin_orders(uri@),
    {
        let mut r = self.stop();
        let ghost before = commands(r@);
        self.uri = Some(uri.to_owned());
        let load = Order::Load(uri.to_owned());
        assert(load@ == Command::Load(uri@));
        r.push(load);
        r.push(Order::Go(Motion::Playing));
        assert(commands(r@) =~= before + begin_orders(uri@));
        r
    }

    /// Lets the song sound, where there is one.
    pub fn play(&self) -> (r: Vec<Order>)
        ensures
            commands(r@) == if self@.uri is Some {
                seq![Command::Go(Motion::Playing)]
            } else {
                Seq::empty()
            },
    {
        let mut r: Vec<Order> = Vec::new();
        if self.uri.is_some() {
            r.push(Order::Go(Motion::Playing));
            assert(commands(r@) =~= seq![Command::Go(Motion::Playing)]);
        } else {
            assert(commands(r@) =~= Seq::empty());
        }
        r
    }

    /// Lets the song rest.
    pub fn pause(&self) -> (r: Vec<Order>)
        ensures
            commands(r@) == seq![Command::Go(Motion::Paused)],
    {
        let mut r: Vec<Order> = Vec::new();
        r.push(Order::Go(Motion::Paused));
        assert(commands(r@) =~= seq![Command::Go(Motion::Paused)]);
        r
    }

    /// Lets the song rest or sound.
    pub fn toggle_play(&self) -> (r: Vec<Order>)
        ensures
            commands(r@) == if self@.is_playing {
                seq![Command::Go(Motion::Paused)]
            } else if self@.uri is Some {
                seq![Command::Go(Motion::Playing)]
            } else {
                Seq::empty()
            },
    {
        if self.is_playing {
            self.pause()
        } else {
            self.play()
        }
    }

    /// The sound system began or ended to sound.
    pub fn on_state_changed(&mut self, playing: bool) -> (r: Vec<Order>)
        ensures
            final(self)@ == noticed(old(self)@, playing),
            commands(r@) == notice_orders(old(self)@, playing),
    {
        let mut r: Vec<Order> = Vec::new();
        if playing != self.is_playing {
            self.is_playing = playing;
            if playing {
                if !self.watching {
                    r.push(Order::Watch);
                }
            } else if self.watching {
                r.push(Order::Unwatch);
            }
            self.watching = playing;
            r.push(Order::TellState(playing));
        }
        assert(commands(r@) =~= notice_orders(old(self)@, playing));
        r
    }

    /// The song has come to its end.
    pub fn on_end(&mut self) -> (r: Vec<Order>)
        ensures
            final(self)@ == stopped(old(self)@),
            commands(r@) == stop_orders(old(self)@).push(Command::TellFinished),
    {
        let mut r = self.stop();
        let ghost before = commands(r@);
        r.push(Order::TellFinished);
        assert(commands(r@) =~= before.push(Command::TellFinished));
        r
    }

    /// The sound system failed.
    pub fn on_error(&mut self) -> (r: Vec<Order>)
        ensures
            final(self)@ == stopped(old(self)@),
            commands(r@) == stop_orders(old(self)@),
    {
        self.stop()
    }

    /// It is time to ask for the position. The result is whether to ask; when the
    /// song does not sound any more, the asking ends.
    pub fn on_poll(&mut self) -> (ask: bool)
        ensures
            ask == old(self)@.is_playing,
            final(self)@ == if old(self)@.is_playing {
                old(self)@
            } else {
                Machine { watching: false, ..old(self)@ }
            },
    {
        if !self.is_playing {
            self.watching = false;
            return false;
        }
        true
    }

    /// Changes the output. `pipewire` and `alsa` tell which devices are present that
    /// sound can go straight to. A song that sounds begins anew.
    pub fn set_audio_output(&mut self, output: &str, pipewire: bool, alsa: bool) -> (r: Vec<
        Order,
    >)
        ensures
            ({
                let m = old(self)@;
                if m.is_playing {
                    &&& final(self)@ == stopped(m)
                    &&& commands(r@) == stop_orders(m) + output_orders(output@, pipewire, alsa)
                        + match m.uri {
                        Some(uri) => begin_orders(uri),
                        None => Seq::empty(),
                    }
                } else {
                    &&& final(self)@ == m
                    &&& commands(r@) == output_orders(output@, pipewire, alsa)
                }
            }),
    {
        let was_playing = self.is_playing;
        let mut r: Vec<Order> = if was_playing {
            self.stop()
        } else {
            Vec::new()
        };
        let ghost first = commands(r@);
        if same(output, "hifi") {
            push_all_rates(&mut r);
            let ghost set = commands(r@);
            if pipewire {
                r.push(Order::DirectSink(Device::PipeWire));
                assert(commands(r@) =~= set.push(Command::DirectSink(Device::PipeWire)));
            } else if alsa {
                r.push(Order::DirectSink(Device::Alsa));
                assert(commands(r@) =~= set.push(Command::DirectSink(Device::Alsa)));
            }
        } else if same(output, "standard") {
            let allow = Order::Allow(rates_str(&STD_RATES));
            assert(allow@ == Command::Allow(rates_text(STD_RATES@)));
            r.push(allow);
            r.push(Order::CommonSink);
            assert(commands(r@) =~= first.push(allow@).push(Command::CommonSink));
        } else if pipewire {
            push_all_rates(&mut r);
            let ghost set = commands(r@);
            r.push(Order::DirectSink(Device::PipeWire));
            assert(commands(r@) =~= set.push(Command::DirectSink(Device::PipeWire)));
        } else {
            r.push(Order::CommonSink);
            assert(commands(r@) =~= first.push(Command::CommonSink));
        }
        assert(commands(r@) =~= first + output_orders(output@, pipewire, alsa));
        let ghost second = commands(r@);
        if was_playing {
            if let Some(uri) = &self.uri {
                let load = Order::Load(uri.clone());
                assert(load@ == Command::Load(uri@));
                r.push(load);
                r.push(Order::Go(Motion::Playing));
                assert(commands(r@) =~= second + begin_orders(uri@));
            } else {
                assert(second + Seq::<Command>::empty() =~= second);
            }
        } else {
            assert(first =~= Seq::empty());
            assert(first + output_orders(output@, pipewire, alsa) =~= output_orders(output@, pipewire, alsa));
        }
        r
    }
}

fn push_all_rates(r: &mut Vec<Order>)
    ensures
        commands(final(r)@) == commands(old(r)@) + seq![
            Command::Allow(rates_text(HIFI_RATES@)),
            Command::WriteConfig,
        ],
{
    let ghost before = commands(r@);
    let allow = Order::Allow(rates_str(&HIFI_RATES));
    assert(allow@ == Command::Allow(rates_text(HIFI_RATES@)));
    r.push(allow);
    r.push(Order::WriteConfig);
    assert(commands(r@) =~= before + seq![
        Command::Allow(rates_text(HIFI_RATES@)),
        Command::WriteConfig,
    ]);
}

/// Whether the slider follows the position: some time after the last jump, where
/// the duration is known. Times are in microseconds.
pub fn follows_position(now: i64, last_seek: i64, has_duration: bool) -> (r: bool)
    ensures
        r == (has_duration && now - last_seek > 800000),
{
    has_duration && (now as i128 - last_seek as i128) > SEEK_REST as i128
}

} // verus!
