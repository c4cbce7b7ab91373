//! What the tray keeps from one event to the next.

use vstd::prelude::*;

use crate::icon::CachedIcon;
use crate::id_map::IdMap;
use crate::item::ItemId;

verus! {

/// What is to be done with an item that was clicked.
#[derive(Debug, Clone, Copy, PartialEq, Eq, Structural)]
pub enum TrayAction {
    Activate,
    ShowMenu,
}

/// The settings that the tray reads.
#[derive(Debug, Clone)]
pub struct Config {
    /// The height of the bar, in logical pixels.
    pub height: u32,
    /// The command that shows menus.
    pub menu_command: Option<String>,
}

/// The source of information on the window manager, by its kind.
#[derive(Debug)]
pub enum WmInfoProvider<R, H, N, O> {
    River(R),
    Hyprland(H),
    Niri(N),
    /// Any other source.
    Other(O),
}

/// The source of information on river, if that is what this is.
pub open spec fn as_river<R, H, N, O>(provider: WmInfoProvider<R, H, N, O>) -> Option<R> {
    match provider {
        WmInfoProvider::River(p) => Some(p),
        _ => None,
    }
}

/// The source of information on Hyprland, if that is what this is.
pub open spec fn as_hyprland<R, H, N, O>(provider: WmInfoProvider<R, H, N, O>) -> Option<H> {
    match provider {
        WmInfoProvider::Hyprland(p) => Some(p),
        _ => None,
    }
}

/// The source of information on niri, if that is what this is.
pub open spec fn as_niri<R, H, N, O>(provider: WmInfoProvider<R, H, N, O>) -> Option<N> {
    match provider {
        WmInfoProvider::Niri(p) => Some(p),
        _ => None,
    }
}

/// A source of information is on at most one of river, Hyprland and niri, and it is that very
/// source that is found.
pub proof fn a_provider_is_of_one_kind<R, H, N, O>(provider: WmInfoProvider<R, H, N, O>)
    ensures
        !(as_river(provider) is Some && as_hyprland(provider) is Some),
        !(as_river(provider) is Some && as_niri(provider) is Some),
        !(as_hyprland(provider) is Some && as_niri(provider) is Some),
        as_river(provider) is Some <==> provider is River,
        as_hyprland(provider) is Some <==> provider is Hyprland,
        as_niri(provider) is Some <==> provider is Niri,
        as_river(provider) matches Some(p) ==> provider == WmInfoProvider::<R, H, N, O>::River(p),
        as_hyprland(provider) matches Some(p) ==> provider == WmInfoProvider::<
            R,
            H,
            N,
            O,
        >::Hyprland(p),
        as_niri(provider) matches Some(p) ==> provider == WmInfoProvider::<R, H, N, O>::Niri(p),
{
}

/// The tray item of `libtrayd`.
#[verifier::external_type_specification]
#[verifier::external_body]
pub struct ExHostItem(libtrayd::TrayItem);

/// An item as the tray host describes it, with the properties by which stale entries are told.
pub struct HostItem {
    pub id: ItemId,
    /// The title of `item`.
    pub title: String,
    /// The icon name of `item`.
    pub icon_name: String,
    /// The whole description.
    pub item: libtrayd::TrayItem,
}

/// What the tray keeps from one event to the next.
pub struct SharedState<R, H, N, O> {
    pub config: Config,
    pub wm_info_provider: WmInfoProvider<R, H, N, O>,
    /// Whether the tray is connected to the bus and can be polled.
    pub tray: bool,
    /// The pictures to draw, by the id of the item.
    pub tray_cache: IdMap<CachedIcon>,
    /// Whether the tray host runs.
    pub tray_host: bool,
    /// The items that the tray host has announced, by id.
    pub tray_items: IdMap<HostItem>,
    /// What is to be done with a clicked item, once the bar is idle.
    pub pending_tray_action: Option<(ItemId, TrayAction)>,
}

impl<R, H, N, O> SharedState<R, H, N, O> {
    /// The two maps are in order.
    pub open spec fn wf(self) -> bool {
        self.tray_cache.wf() && self.tray_items.wf()
    }

    /// The state of a bar whose tray has not been started.
    pub fn new(config: Config, wm_info_provider: WmInfoProvider<R, H, N, O>) -> (r: Self)
        ensures
            r.wf(),
            r.config == config,
            r.wm_info_provider == wm_info_provider,
            !r.tray,
            !r.tray_host,
            r.tray_cache@ == Map::<Seq<char>, CachedIcon>::empty(),
            r.tray_items@ == Map::<Seq<char>, HostItem>::empty(),
            r.pending_tray_action is None,
    {
        SharedState {
            config,
            wm_info_provider,
            tray: false,
            tray_cache: IdMap::new(),
            tray_host: false,
            tray_items: IdMap::new(),
            pending_tray_action: None,
        }
    }

    /// The source of information on river, if it is in use.
    pub fn get_river(&mut self) -> (r: Option<&mut R>)
        ensures
            match r {
                Some(p) => {
                    &&& as_river(old(self).wm_info_provider) == Some(*p)
                    &&& *final(self) == (SharedState {
                        wm_info_provider: WmInfoProvider::<R, H, N, O>::River(*final(p)),
                        ..*old(self)
                    })
                },
                None => {
                    &&& as_river(old(self).wm_info_provider) is None
                    &&& *final(self) == *old(self)
                },
            },
    {
        match &mut self.wm_info_provider {
            WmInfoProvider::River(p) => Some(p),
            _ => None,
        }
    }

    /// The source of information on Hyprland, if it is in use.
    pub fn get_hyprland(&mut self) -> (r: Option<&mut H>)
        ensures
            match r {
                Some(p) => {
                    &&& as_hyprland(old(self).wm_info_provider) == Some(*p)
                    &&& *final(self) == (SharedState {
                        wm_info_provider: WmInfoProvider::<R, H, N, O>::Hyprland(*final(p)),
                        ..*old(self)
                    })
                },
                None => {
                    &&& as_hyprland(old(self).wm_info_provider) is None
                    &&& *final(self) == *old(self)
                },
            },
    {
        match &mut self.wm_info_provider {
            WmInfoProvider::Hyprland(p) => Some(p),
            _ => None,
        }
    }

    /// The source of information on niri, if it is in use.
    pub fn get_niri(&mut self) -> (r: Option<&mut N>)
        ensures
            match r {
                Some(p) => {
                    &&& as_niri(old(self).wm_info_provider) == Some(*p)
                    &&& *final(self) == (SharedState {
                        wm_info_provider: WmInfoProvider::<R, H, N, O>::Niri(*final(p)),
                        ..*old(self)
                    })
                },
                None => {
                    &&& as_niri(old(self).wm_info_provider) is None
                    &&& *final(self) == *old(self)
                },
            },
    {
        match &mut self.wm_info_provider {
            WmInfoProvider::Niri(p) => Some(p),
            _ => None,
        }
    }
}

} // verus!
