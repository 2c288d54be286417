//! The profile of gamma exposure over the strikes of options: which parts of it are shown, and
//! with what words.

use vstd::prelude::*;
use vstd::string::*;

verus! {

/// How old the data is.
#[derive(Debug, Clone, Copy, PartialEq, Eq, Structural)]
pub enum GexFreshness {
    Loading,
    Fresh,
    Stale,
    Expired,
    Error,
}

/// How exposure gets its sign.
#[derive(Debug, Clone, Copy, PartialEq, Eq, Structural)]
pub enum GexSignModel {
    /// Open interest of calls counts as positive, that of puts as negative.
    CallPutOiProxy,
    /// Exposure has no sign.
    AbsoluteGamma,
}

/// What the user wants to see.
#[derive(Debug, Clone, Copy, PartialEq, Eq, Structural)]
pub struct GexShown {
    pub summary: bool,
    pub put_gex: bool,
    pub call_gex: bool,
    pub net_gex: bool,
    pub absolute_gamma: bool,
    pub current_price: bool,
    pub gamma_flip: bool,
    pub call_wall: bool,
    pub put_wall: bool,
}

impl GexFreshness {
    /// What stands in place of the profile when there is no data at all.
    pub fn absence(self) -> (s: &'static str)
        ensures
            s@ == if self is Error {
                "GEX data unavailable."@
            } else {
                "Waiting for GEX data..."@
            },
    {
        match self {
            GexFreshness::Error => "GEX data unavailable.",
            _ => "Waiting for GEX data...",
        }
    }

    /// The word for it.
    pub fn label(self) -> (s: &'static str)
        ensures
            s@ == match self {
                GexFreshness::Loading => "Loading"@,
                GexFreshness::Fresh => "Fresh"@,
                GexFreshness::Stale => "Stale"@,
                GexFreshness::Expired => "Expired"@,
                GexFreshness::Error => "Error · cached"@,
            },
    {
        match self {
            GexFreshness::Loading => "Loading",
            GexFreshness::Fresh => "Fresh",
            GexFreshness::Stale => "Stale",
            GexFreshness::Expired => "Expired",
            GexFreshness::Error => "Error · cached",
        }
    }

    /// True when the profile is dimmed, as its data is old.
    pub fn is_dimmed(self) -> (r: bool)
        ensures
            r == (self is Stale || self is Expired),
    {
        match self {
            GexFreshness::Stale | GexFreshness::Expired => true,
            _ => false,
        }
    }
}

/// The title of the profile.
pub open spec fn title_text(
    underlying: Seq<char>,
    provider: Seq<char>,
    model: Seq<char>,
) -> Seq<char> {
    underlying + " GEX · "@ + provider + " · "@ + model
}

/// The title of the profile.
pub fn title(underlying: &str, provider: &str, model: &str) -> (s: String)
    ensures
        s@ == title_text(underlying@, provider@, model@),
{
    let mut s = String::from_str(underlying);
    s.append(" GEX · ");
    s.append(provider);
    s.append(" · ");
    s.append(model);
    s
}

/// What the profile consists of.
#[derive(Debug, Clone, Copy, PartialEq, Eq, Structural)]
pub enum GexBody {
    /// No data at all.
    Absent,
    /// The data knows no strikes.
    NoOptions,
    /// All strikes are out of sight.
    OutOfSight,
    /// The strikes.
    Strikes,
}

/// What the profile consists of. `strikes` is the number of strikes of the data, if there is any,
/// and `visible` how many are in sight.
pub fn body(strikes: Option<usize>, visible: usize) -> (b: GexBody)
    ensures
        b == match strikes {
            None => GexBody::Absent,
            Some(n) => if n == 0 {
                GexBody::NoOptions
            } else if visible == 0 {
                GexBody::OutOfSight
            } else {
                GexBody::Strikes
            },
        },
{
    match strikes {
        None => GexBody::Absent,
        Some(0) => GexBody::NoOptions,
        Some(_) => if visible == 0 {
            GexBody::OutOfSight
        } else {
            GexBody::Strikes
        },
    }
}

impl GexBody {
    /// What stands in place of the strikes.
    pub fn notice(self) -> (s: Option<&'static str>)
        ensures
            match self {
                GexBody::NoOptions => s matches Some(t) && t@
                    == "No valid options for the selected expiry filter."@,
                GexBody::OutOfSight => s matches Some(t) && t@
                    == "No strikes in the configured price range."@,
                _ => s is None,
            },
    {
        match self {
            GexBody::NoOptions => Some("No valid options for the selected expiry filter."),
            GexBody::OutOfSight => Some("No strikes in the configured price range."),
            _ => None,
        }
    }
}

impl GexSignModel {
    /// What is said when no flip of the sign is in sight. Without signs there is none to miss.
    pub fn flip_notice(self, has_flip: bool) -> (s: Option<&'static str>)
        ensures
            s is Some <==> self is CallPutOiProxy && !has_flip,
            s matches Some(t) ==> t@ == "No gamma flip in the configured price range."@,
    {
        if self == GexSignModel::CallPutOiProxy && !has_flip {
            Some("No gamma flip in the configured price range.")
        } else {
            None
        }
    }

    /// What stands above the axis.
    pub fn axis_title(self) -> (s: &'static str)
        ensures
            s@ == if self is CallPutOiProxy {
                "Put GEX ←  GEX / 1%  → Call GEX"@
            } else {
                "Absolute gamma concentration"@
            },
    {
        match self {
            GexSignModel::CallPutOiProxy => "Put GEX ←  GEX / 1%  → Call GEX",
            GexSignModel::AbsoluteGamma => "Absolute gamma concentration",
        }
    }
}

/// What is said of an error of the last refresh.
pub fn error_line(error: &str) -> (s: String)
    ensures
        s@ == "Last refresh error: "@ + error@,
{
    let mut s = String::from_str("Last refresh error: ");
    s.append(error);
    s
}

/// The share of a row, of a thousand, that a bar leaves empty.
pub fn empty_share(bar: u16) -> (r: u16)
    requires
        bar <= 1000,
    ensures
        r + bar == 1000,
{
    1000 - bar
}

/// The bars of a strike.
#[derive(Debug, Clone, Copy, PartialEq, Eq, Structural)]
pub struct StrikeBars {
    /// True when there is a bar to the left, for puts.
    pub left: bool,
    /// True when there is a bar to the right, for calls, or for all options without signs.
    pub right: bool,
}

/// The bars of a strike. Without signs there is only the one to the right.
pub fn strike_bars(shown: GexShown, model: GexSignModel) -> (b: StrikeBars)
    ensures
        b.left == (shown.put_gex && model !is AbsoluteGamma),
        b.right == shown.call_gex,
{
    StrikeBars {
        left: shown.put_gex && model != GexSignModel::AbsoluteGamma,
        right: shown.call_gex,
    }
}

/// The figures beside a strike.
pub open spec fn figures(
    shown: GexShown,
    model: GexSignModel,
    net: Seq<char>,
    absolute: Seq<char>,
) -> Seq<char> {
    if model is AbsoluteGamma {
        if shown.net_gex {
            "abs "@ + absolute
        } else {
            Seq::empty()
        }
    } else if shown.net_gex && shown.absolute_gamma {
        "net "@ + net + " · "@ + "abs "@ + absolute
    } else if shown.net_gex {
        "net "@ + net
    } else if shown.absolute_gamma {
        "abs "@ + absolute
    } else {
        Seq::empty()
    }
}

/// The figures beside a strike, made of its net exposure and its gamma without sign.
pub fn detail_label(shown: GexShown, model: GexSignModel, net: &str, absolute: &str) -> (s: String)
    ensures
        s@ == figures(shown, model, net@, absolute@),
{
    let absolute_mode = model == GexSignModel::AbsoluteGamma;
    proof {
        reveal_strlit("");
    }
    let mut s = String::from_str("");
    assert(s@ =~= Seq::empty());
    let mut begun = false;
    if shown.net_gex {
        if absolute_mode {
            s.append("abs ");
            s.append(absolute);
            assert(s@ =~= "abs "@ + absolute@);
        } else {
            s.append("net ");
            s.append(net);
            assert(s@ =~= "net "@ + net@);
        }
        begun = true;
    }
    if shown.absolute_gamma && !absolute_mode {
        if begun {
            s.append(" · ");
        }
        s.append("abs ");
        s.append(absolute);
        assert(s@ =~= figures(shown, model, net@, absolute@));
    }
    s
}

/// What is marked at a strike.
#[derive(Debug, Clone, Copy, PartialEq, Eq, Structural)]
pub struct StrikeMarks {
    pub spot: bool,
    pub flip: bool,
    pub call_wall: bool,
    pub put_wall: bool,
}

impl StrikeMarks {
    /// What is marked: what is near the strike and wanted.
    pub fn of(near: StrikeMarks, shown: GexShown) -> (m: Self)
        ensures
            m.spot == (near.spot && shown.current_price),
            m.flip == (near.flip && shown.gamma_flip),
            m.call_wall == (near.call_wall && shown.call_wall),
            m.put_wall == (near.put_wall && shown.put_wall),
    {
        StrikeMarks {
            spot: shown.current_price && near.spot,
            flip: shown.gamma_flip && near.flip,
            call_wall: shown.call_wall && near.call_wall,
            put_wall: shown.put_wall && near.put_wall,
        }
    }

    /// The names of what is marked.
    pub open spec fn names(self) -> Seq<Seq<char>> {
        named(self.spot, "Spot"@) + named(self.flip, "Flip"@) + named(
            self.call_wall,
            "Call Wall"@,
        ) + named(self.put_wall, "Put Wall"@)
    }

    /// The names of what is marked, in brackets.
    pub fn badges(self) -> (s: String)
        ensures
            s@ == if self.names().len() == 0 {
                Seq::empty()
            } else {
                "["@ + joined(self.names()) + "]"@
            },
    {
        let mut names: Vec<&'static str> = Vec::new();
        assert(word_views(names@) =~= Seq::empty());
        if self.spot {
            names.push("Spot");
        }
        assert(word_views(names@) =~= named(self.spot, "Spot"@));
        if self.flip {
            names.push("Flip");
        }
        assert(word_views(names@) =~= named(self.spot, "Spot"@) + named(self.flip, "Flip"@));
        if self.call_wall {
            names.push("Call Wall");
        }
        assert(word_views(names@) =~= named(self.spot, "Spot"@) + named(self.flip, "Flip"@) + named(
            self.call_wall,
            "Call Wall"@,
        ));
        if self.put_wall {
            names.push("Put Wall");
        }
        assert(word_views(names@) =~= self.names());
        bracketed(&names)
    }

    /// The colour of the row: where spot or flip is it warns, whatever else is there.
    pub open spec fn colour(self) -> Option<MarkerColor> {
        if self.flip || self.spot {
            Some(MarkerColor::Warning)
        } else if self.call_wall {
            Some(MarkerColor::Success)
        } else if self.put_wall {
            Some(MarkerColor::Danger)
        } else {
            None
        }
    }

    /// The colour of the row.
    pub fn marker(self) -> (c: Option<MarkerColor>)
        ensures
            c == self.colour(),
    {
        if self.flip || self.spot {
            Some(MarkerColor::Warning)
        } else if self.call_wall {
            Some(MarkerColor::Success)
        } else if self.put_wall {
            Some(MarkerColor::Danger)
        } else {
            None
        }
    }
}

/// The colour of a marked row.
#[derive(Debug, Clone, Copy, PartialEq, Eq, Structural)]
pub enum MarkerColor {
    Warning,
    Success,
    Danger,
}

/// A name, if it is wanted.
pub open spec fn named(wanted: bool, name: Seq<char>) -> Seq<Seq<char>> {
    if wanted {
        seq![name]
    } else {
        Seq::empty()
    }
}

/// What several words denote.
pub open spec fn word_views(v: Seq<&'static str>) -> Seq<Seq<char>> {
    v.map_values(|s: &'static str| s@)
}

/// Words with dots between them.
pub open spec fn joined(words: Seq<Seq<char>>) -> Seq<char>
    decreases words.len(),
{
    if words.len() == 0 {
        Seq::empty()
    } else if words.len() == 1 {
        words[0]
    } else {
        joined(words.drop_last()) + " · "@ + words.last()
    }
}

/// Words with dots between them, in brackets. Nothing when there are none.
fn bracketed(words: &Vec<&'static str>) -> (s: String)
    ensures
        s@ == if words@.len() == 0 {
            Seq::empty()
        } else {
            "["@ + joined(word_views(words@)) + "]"@
        },
{
    let n: usize = words.len();
    if n == 0 {
        proof {
            reveal_strlit("");
        }
        let s = String::from_str("");
        assert(s@ =~= Seq::empty());
        return s;
    }
    let ghost views = word_views(words@);
    let mut s = String::from_str("[");
    s.append(words[0]);
    let mut i: usize = 1;
    assert(views.take(1)[0] == words@[0]@);
    assert(s@ =~= "["@ + joined(views.take(1)));
    while i < n
        invariant
            1 <= i <= n,
            n == words@.len(),
            views == word_views(words@),
            s@ == "["@ + joined(views.take(i as int)),
        decreases n - i,
    {
        let ghost next = views.take(i as int + 1);
        assert(next.drop_last() =~= views.take(i as int));
        assert(next.last() == words@[i as int]@);
        s.append(" · ");
        s.append(words[i]);
        assert(s@ =~= "["@ + joined(next));
        i += 1;
    }
    assert(views.take(n as int) =~= views);
    s.append("]");
    s
}

/// A strike is coloured exactly when it has a badge.
pub proof fn law_badges_are_coloured(m: StrikeMarks)
    ensures
        m.colour() is Some <==> m.names().len() > 0,
{
}

/// The figures beside a strike show what is wanted and nothing else. Without a sign there is no net
/// exposure, and the gamma stands in its place.
pub proof fn law_figures_show_what_is_wanted(
    shown: GexShown,
    model: GexSignModel,
    net: Seq<char>,
    other: Seq<char>,
    absolute: Seq<char>,
)
    ensures
        !shown.net_gex && (!shown.absolute_gamma || model is AbsoluteGamma) ==> figures(
            shown,
            model,
            net,
            absolute,
        ).len() == 0,
        model is AbsoluteGamma || !shown.net_gex ==> figures(shown, model, net, absolute) == figures(
            shown,
            model,
            other,
            absolute,
        ),
        model !is AbsoluteGamma && shown.net_gex && !shown.absolute_gamma ==> figures(
            shown,
            model,
            net,
            absolute,
        ) == "net "@ + net,
        (model is AbsoluteGamma && shown.net_gex) || (!shown.net_gex && shown.absolute_gamma
            && model !is AbsoluteGamma) ==> figures(shown, model, net, absolute) == "abs "@
            + absolute,
        model !is AbsoluteGamma && shown.net_gex && shown.absolute_gamma ==> figures(
            shown,
            model,
            net,
            absolute,
        ) == "net "@ + net + " · "@ + "abs "@ + absolute,
{
}

} // verus!
