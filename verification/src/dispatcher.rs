//! The dispatcher: the one place where requests are answered and the world
//! changes. It keeps the sessions, the rovers that wait for their players,
//! and the planet, and takes one envelope after another.

use crate::command::{command_of, parse_command, Command, CommandView};
use crate::planet::{lemma_with_kind, CellTrait, CellType, Grid, Planet};
use crate::rover::{Compass, Rover, RoverView};
use crate::text::read_utf8;
use vstd::prelude::*;
use vstd::utf8::{decode_utf8, encode_utf8, valid_utf8};

verus! {

/// An envelope on the bus: who sent it, whom it is for, and what it says.
#[derive(Debug)]
pub struct Message {
    pub author: u128,
    pub target: u128,
    pub data: Vec<u8>,
}

/// An envelope as mathematics.
pub struct MessageView {
    pub author: u128,
    pub target: u128,
    pub data: Seq<u8>,
}

impl View for Message {
    type V = MessageView;

    open spec fn view(&self) -> MessageView {
        MessageView { author: self.author, target: self.target, data: self.data@ }
    }
}

/// What the dispatcher knows of one connection: its identifier and, once the
/// player has logged in, the rover.
#[derive(Debug)]
pub struct Client {
    pub uuid: u128,
    pub rover: Option<Rover>,
}

/// A session record as mathematics.
pub struct ClientView {
    pub uuid: u128,
    pub rover: Option<RoverView>,
}

impl View for Client {
    type V = ClientView;

    open spec fn view(&self) -> ClientView {
        ClientView {
            uuid: self.uuid,
            rover: match self.rover {
                Some(rover) => Some(rover@),
                None => None,
            },
        }
    }
}

/// The answer to a request to log in that was granted.
pub open spec fn login_successful() -> Seq<char> {
    "login successful"@
}

/// The answer to a request to log in that was refused.
pub open spec fn login_failed() -> Seq<char> {
    "login failed"@
}

/// The answer to any other request of a session without a rover.
pub open spec fn not_signed_in() -> Seq<char> {
    "not signed in"@
}

/// Where the first session with identifier `uuid` stands, searching from
/// `start` on.
pub open spec fn session_from(sessions: Seq<ClientView>, uuid: u128, start: int) -> Option<int>
    decreases sessions.len() - start,
{
    if start < 0 || start >= sessions.len() {
        None
    } else if sessions[start].uuid == uuid {
        Some(start)
    } else {
        session_from(sessions, uuid, start + 1)
    }
}

/// Where the first rover with the name `username` stands, searching from
/// `start` on.
pub open spec fn rover_from(rovers: Seq<RoverView>, username: Seq<char>, start: int) -> Option<
    int,
>
    decreases rovers.len() - start,
{
    if start < 0 || start >= rovers.len() {
        None
    } else if rovers[start].username == username {
        Some(start)
    } else {
        rover_from(rovers, username, start + 1)
    }
}

/// A search for a session finds the first one with the identifier, and
/// finds nothing only where no session has it.
pub proof fn lemma_session_from(sessions: Seq<ClientView>, uuid: u128, start: int)
    requires
        0 <= start,
    ensures
        match session_from(sessions, uuid, start) {
            Some(i) => start <= i < sessions.len() && sessions[i].uuid == uuid && forall|j: int|
                start <= j < i ==> sessions[j].uuid != uuid,
            None => forall|j: int| start <= j < sessions.len() ==> sessions[j].uuid != uuid,
        },
    decreases sessions.len() - start,
{
    if start < sessions.len() && sessions[start].uuid != uuid {
        lemma_session_from(sessions, uuid, start + 1);
    }
}

/// A search for a rover finds the first one with the name, and finds
/// nothing only where no rover has it.
pub proof fn lemma_rover_from(rovers: Seq<RoverView>, username: Seq<char>, start: int)
    requires
        0 <= start,
    ensures
        match rover_from(rovers, username, start) {
            Some(i) => start <= i < rovers.len() && rovers[i].username == username
                && forall|j: int| start <= j < i ==> rovers[j].username != username,
            None => forall|j: int| start <= j < rovers.len() ==> rovers[j].username != username,
        },
    decreases rovers.len() - start,
{
    if start < rovers.len() && rovers[start].username != username {
        lemma_rover_from(rovers, username, start + 1);
    }
}

/// What the dispatcher did with one envelope: the world it left and the
/// answer it gave, if it gave one.
pub struct Outcome {
    pub world: World,
    pub reply: Option<MessageView>,
}

/// Everything the dispatcher keeps, as mathematics.
pub struct World {
    pub server: u128,
    pub grid: Grid,
    pub sessions: Seq<ClientView>,
    pub parked: Seq<RoverView>,
}

impl World {
    /// The grid is whole and every rover, in a session or parked, stands on
    /// it.
    pub open spec fn wf(self) -> bool {
        &&& self.grid.wf()
        &&& self.grid.size <= i32::MAX
        &&& forall|i: int|
            0 <= i < self.sessions.len() ==> ((#[trigger] self.sessions[i]).rover matches Some(
                rover,
            ) ==> self.grid.contains(rover.x, rover.y))
        &&& forall|k: int|
            0 <= k < self.parked.len() ==> self.grid.contains(
                (#[trigger] self.parked[k]).x,
                self.parked[k].y,
            )
    }

    /// Where the session of the connection `uuid` stands.
    pub open spec fn session_of(self, uuid: u128) -> Option<int> {
        session_from(self.sessions, uuid, 0)
    }

    /// Where the parked rover with the name `username` stands.
    pub open spec fn parked_as(self, username: Seq<char>) -> Option<int> {
        rover_from(self.parked, username, 0)
    }

    /// An answer of the server to the connection `to`.
    pub open spec fn answer(self, to: u128, text: Seq<char>) -> Option<MessageView> {
        Some(MessageView { author: self.server, target: to, data: encode_utf8(text) })
    }

    /// The world with the rover of session `i` replaced.
    pub open spec fn with_rover(self, i: int, rover: Option<RoverView>) -> World {
        World {
            sessions: self.sessions.update(
                i,
                ClientView { uuid: self.sessions[i].uuid, rover },
            ),
            ..self
        }
    }

    /// The world with one more session, which has no rover yet.
    pub open spec fn registered(self, uuid: u128) -> World {
        World { sessions: self.sessions.push(ClientView { uuid, rover: None }), ..self }
    }

    /// The world without the session of the connection `uuid`. A rover that
    /// the session had is parked.
    pub open spec fn removed(self, uuid: u128) -> World {
        match self.session_of(uuid) {
            Some(i) => World {
                sessions: self.sessions.remove(i),
                parked: match self.sessions[i].rover {
                    Some(rover) => self.parked.push(rover),
                    None => self.parked,
                },
                ..self
            },
            None => self,
        }
    }

    /// A request to log in from session `i`, which has no rover. A parked
    /// rover with that name is handed over if the password is its own. For a
    /// name that no parked rover has, a new rover lands on `landing`, which
    /// must be air.
    pub open spec fn login(
        self,
        i: int,
        username: Seq<char>,
        password: Seq<char>,
        landing: Option<(int, int)>,
    ) -> Outcome {
        let to = self.sessions[i].uuid;
        let refused = Outcome { world: self, reply: self.answer(to, login_failed()) };
        match self.parked_as(username) {
            Some(k) => if self.parked[k].password == password {
                Outcome {
                    world: World {
                        parked: self.parked.remove(k),
                        ..self.with_rover(i, Some(self.parked[k]))
                    },
                    reply: self.answer(to, login_successful()),
                }
            } else {
                refused
            },
            None => match landing {
                Some(site) => if self.grid.kind_at(site.0, site.1) == CellType::Air {
                    Outcome {
                        world: self.with_rover(
                            i,
                            Some(
                                RoverView {
                                    username,
                                    password,
                                    x: site.0,
                                    y: site.1,
                                    rotation: Compass::North,
                                    points: 0,
                                },
                            ),
                        ),
                        reply: self.answer(to, login_successful()),
                    }
                } else {
                    refused
                },
                None => refused,
            },
        }
    }

    /// A request from session `i`, which has no rover.
    pub open spec fn greet(self, i: int, command: CommandView, landing: Option<(int, int)>) -> Outcome {
        match command {
            CommandView::Login { username, password } => self.login(i, username, password, landing),
            CommandView::BadLogin => Outcome {
                world: self,
                reply: self.answer(self.sessions[i].uuid, login_failed()),
            },
            _ => Outcome {
                world: self,
                reply: self.answer(self.sessions[i].uuid, not_signed_in()),
            },
        }
    }

    /// Whether the rover's points can take what digging ahead would earn.
    pub open spec fn can_dig(rover: RoverView, grid: Grid) -> bool {
        rover.points + rover.dig_reward(grid) <= u32::MAX
    }

    /// The rover after it carried out `command` on `grid`.
    pub open spec fn rover_after(rover: RoverView, grid: Grid, command: CommandView) -> RoverView {
        match command {
            CommandView::Forward => rover.advanced(grid),
            CommandView::TurnLeft => rover.turned(false),
            CommandView::TurnRight => rover.turned(true),
            CommandView::Dig => if Self::can_dig(rover, grid) {
                rover.after_dig(grid)
            } else {
                rover
            },
            _ => rover,
        }
    }

    /// The grid after the rover carried out `command` on it.
    pub open spec fn grid_after(rover: RoverView, grid: Grid, command: CommandView) -> Grid {
        match command {
            CommandView::Dig => if Self::can_dig(rover, grid) {
                rover.dug(grid)
            } else {
                grid
            },
            _ => grid,
        }
    }

    /// What the rover has to say after `command`.
    pub open spec fn report(rover: RoverView, grid: Grid, command: CommandView) -> Option<
        Seq<char>,
    > {
        match command {
            CommandView::Position => Some(rover.position_text()),
            CommandView::Scan => Some(rover.scan_report(grid)),
            _ => None,
        }
    }

    /// A request from session `i`, which has a rover. The rover leaves its
    /// cell, which becomes air; it carries out the command; it is marked on
    /// the cell where it then stands. `position` and `scan` are answered.
    /// `disconnect` parks the rover and ends the session.
    pub open spec fn serve(self, i: int, command: CommandView) -> Outcome {
        let rover = self.sessions[i].rover->0;
        let vacated = self.grid.with_kind(rover.x, rover.y, CellType::Air);
        let moved = Self::rover_after(rover, vacated, command);
        let worked = Self::grid_after(rover, vacated, command);
        let grid = worked.with_kind(moved.x, moved.y, CellType::Rover);
        let reply = match Self::report(rover, vacated, command) {
            Some(text) => self.answer(self.sessions[i].uuid, text),
            None => None,
        };
        if command is Disconnect {
            Outcome {
                world: World {
                    grid,
                    sessions: self.sessions.remove(i),
                    parked: self.parked.push(moved),
                    ..self
                },
                reply,
            }
        } else {
            Outcome { world: World { grid, ..self.with_rover(i, Some(moved)) }, reply }
        }
    }

    /// What becomes of an envelope. One that is not for the server, one
    /// that is not UTF-8 text and one from a connection without a session
    /// are dropped. The others are read as a request, which is handled as
    /// the session's state asks. `landing` is where a new rover would land.
    pub open spec fn handle(self, message: MessageView, landing: Option<(int, int)>) -> Outcome {
        let dropped = Outcome { world: self, reply: None };
        if message.target != self.server || !valid_utf8(message.data) {
            dropped
        } else {
            match self.session_of(message.author) {
                Some(i) => {
                    let command = command_of(decode_utf8(message.data));
                    if self.sessions[i].rover is Some {
                        self.serve(i, command)
                    } else {
                        self.greet(i, command, landing)
                    }
                },
                None => dropped,
            }
        }
    }
}

/// Whether a new rover may be sent to `landing`: to a cell of air, or
/// nowhere where the grid has no air.
pub open spec fn fair_landing(grid: Grid, landing: Option<(int, int)>) -> bool {
    match landing {
        Some(site) => grid.kind_at(site.0, site.1) == CellType::Air,
        None => forall|x: int, y: int| grid.kind_at(x, y) != CellType::Air,
    }
}

/// What the server answers, it answers in its own name and to the author of
/// the request.
pub proof fn lemma_reply_goes_to_author(world: World, message: MessageView, landing: Option<(int, int)>)
    ensures
        world.handle(message, landing).reply matches Some(reply) ==> reply.author == world.server
            && reply.target == message.author,
{
    lemma_session_from(world.sessions, message.author, 0);
}

/// A rover that carries out a command stays on the grid, and the grid stays
/// whole.
pub proof fn lemma_rover_stays_on_grid(rover: RoverView, grid: Grid, command: CommandView)
    requires
        grid.wf(),
        grid.contains(rover.x, rover.y),
    ensures
        World::grid_after(rover, grid, command).wf(),
        World::grid_after(rover, grid, command).size == grid.size,
        grid.contains(
            World::rover_after(rover, grid, command).x,
            World::rover_after(rover, grid, command).y,
        ),
{
    if rover.faces(grid).is_mineable() {
        lemma_with_kind(grid, rover.ahead().0, rover.ahead().1, CellType::Air, 0, 0);
    }
}

/// Whatever the envelope, the dispatcher leaves a world in which the grid is
/// whole and every rover stands on it.
pub proof fn lemma_handle_keeps_wf(world: World, message: MessageView, landing: Option<(int, int)>)
    requires
        world.wf(),
    ensures
        world.handle(message, landing).world.wf(),
        world.handle(message, landing).world.server == world.server,
        world.handle(message, landing).world.grid.size == world.grid.size,
{
    let after = world.handle(message, landing).world;
    lemma_session_from(world.sessions, message.author, 0);
    if after != world {
        let i = world.session_of(message.author)->0;
        let command = command_of(decode_utf8(message.data));
        match world.sessions[i].rover {
            Some(rover) => {
                let vacated = world.grid.with_kind(rover.x, rover.y, CellType::Air);
                lemma_with_kind(world.grid, rover.x, rover.y, CellType::Air, 0, 0);
                lemma_rover_stays_on_grid(rover, vacated, command);
                let moved = World::rover_after(rover, vacated, command);
                let worked = World::grid_after(rover, vacated, command);
                lemma_with_kind(worked, moved.x, moved.y, CellType::Rover, 0, 0);
                assert forall|j: int| 0 <= j < after.sessions.len() implies ((
                #[trigger] after.sessions[j]).rover matches Some(other) ==> after.grid.contains(
                    other.x,
                    other.y,
                )) by {
                    if command is Disconnect {
                        if j < i {
                            assert(after.sessions[j] == world.sessions[j]);
                        } else {
                            assert(after.sessions[j] == world.sessions[j + 1]);
                        }
                    } else if j != i {
                        assert(after.sessions[j] == world.sessions[j]);
                    }
                }
                assert forall|k: int| 0 <= k < after.parked.len() implies after.grid.contains(
                    (#[trigger] after.parked[k]).x,
                    after.parked[k].y,
                ) by {
                    if k < world.parked.len() {
                        assert(after.parked[k] == world.parked[k]);
                    }
                }
            },
            None => {
                let (username, password) = match command {
                    CommandView::Login { username, password } => (username, password),
                    _ => (Seq::empty(), Seq::empty()),
                };
                lemma_rover_from(world.parked, username, 0);
                assert forall|j: int| 0 <= j < after.sessions.len() implies ((
                #[trigger] after.sessions[j]).rover matches Some(other) ==> after.grid.contains(
                    other.x,
                    other.y,
                )) by {
                    if j != i {
                        assert(after.sessions[j] == world.sessions[j]);
                    }
                }
                assert forall|k: int| 0 <= k < after.parked.len() implies after.grid.contains(
                    (#[trigger] after.parked[k]).x,
                    after.parked[k].y,
                ) by {
                    if after.parked != world.parked {
                        let at = world.parked_as(username)->0;
                        if k < at {
                            assert(after.parked[k] == world.parked[k]);
                        } else {
                            assert(after.parked[k] == world.parked[k + 1]);
                        }
                    }
                }
            },
        }
    }
}

/// A rover that is parked behind rovers of other names is found where it
/// was parked.
pub proof fn lemma_parked_last(rovers: Seq<RoverView>, rover: RoverView, start: int)
    requires
        0 <= start <= rovers.len(),
        forall|k: int| start <= k < rovers.len() ==> rovers[k].username != rover.username,
    ensures
        rover_from(rovers.push(rover), rover.username, start) == Some(rovers.len() as int),
    decreases rovers.len() - start,
{
    if start < rovers.len() {
        lemma_parked_last(rovers, rover, start + 1);
    }
}

/// A player who disconnects and logs in again gets the rover back as it
/// was left. Say the session `i` has a rover under a name that no parked
/// rover has, and disconnects. A session `j` of the world after that, with
/// no rover of its own, which then logs in under that name with the rover's
/// password, is answered `login successful` and holds the rover, with its
/// place, its direction and its points. With another password it is
/// answered `login failed` and nothing changes.
pub proof fn lemma_rover_returns(
    world: World,
    i: int,
    j: int,
    password: Seq<char>,
    landing: Option<(int, int)>,
)
    requires
        0 <= i < world.sessions.len(),
        world.sessions[i].rover is Some,
        world.parked_as(world.sessions[i].rover->0.username) is None,
        0 <= j < world.serve(i, CommandView::Disconnect).world.sessions.len(),
        world.serve(i, CommandView::Disconnect).world.sessions[j].rover is None,
    ensures
        ({
            let rover = world.sessions[i].rover->0;
            let left = world.serve(i, CommandView::Disconnect).world;
            let back = left.login(j, rover.username, password, landing);
            if password == rover.password {
                &&& back.world.sessions[j].rover == Some(rover)
                &&& back.world.parked == world.parked
                &&& back.world.grid == left.grid
                &&& back.reply == left.answer(left.sessions[j].uuid, login_successful())
            } else {
                &&& back.world == left
                &&& back.reply == left.answer(left.sessions[j].uuid, login_failed())
            }
        }),
{
    let rover = world.sessions[i].rover->0;
    let left = world.serve(i, CommandView::Disconnect).world;
    lemma_rover_from(world.parked, rover.username, 0);
    lemma_parked_last(world.parked, rover, 0);
    assert(left.parked == world.parked.push(rover));
    assert(left.parked.remove(world.parked.len() as int) =~= world.parked);
}

/// A player who logs in under a name that no parked rover has, and for whom
/// a cell of air is found, is answered `login successful` and holds a new
/// rover on that cell, which faces north and has no points.
pub proof fn lemma_new_rover_lands(
    world: World,
    i: int,
    username: Seq<char>,
    password: Seq<char>,
    site: (int, int),
)
    requires
        0 <= i < world.sessions.len(),
        world.parked_as(username) is None,
        world.grid.kind_at(site.0, site.1) == CellType::Air,
    ensures
        ({
            let landed = world.login(i, username, password, Some(site));
            &&& landed.reply == world.answer(world.sessions[i].uuid, login_successful())
            &&& landed.world.sessions[i].rover == Some(
                RoverView {
                    username,
                    password,
                    x: site.0,
                    y: site.1,
                    rotation: Compass::North,
                    points: 0,
                },
            )
            &&& landed.world.grid == world.grid
            &&& landed.world.parked == world.parked
            &&& world.grid.contains(site.0, site.1)
        }),
{
}

/// Some landing is always fair.
pub proof fn lemma_fair_landing_exists(grid: Grid)
    ensures
        exists|landing: Option<(int, int)>| fair_landing(grid, landing),
{
    if exists|x: int, y: int| grid.kind_at(x, y) == CellType::Air {
        let (x, y) = choose|x: int, y: int| grid.kind_at(x, y) == CellType::Air;
        assert(fair_landing(grid, Some((x, y))));
    } else {
        assert(fair_landing(grid, None));
    }
}

/// The session records as mathematics.
pub open spec fn clients_view(clients: Seq<Client>) -> Seq<ClientView> {
    Seq::new(clients.len(), |i: int| clients[i]@)
}

/// The rovers as mathematics.
pub open spec fn rovers_view(rovers: Seq<Rover>) -> Seq<RoverView> {
    Seq::new(rovers.len(), |i: int| rovers[i]@)
}

/// An answer, if there is one, as mathematics.
pub open spec fn reply_view(reply: Option<Message>) -> Option<MessageView> {
    match reply {
        Some(message) => Some(message@),
        None => None,
    }
}

/// A landing site, if there is one, as mathematics.
pub open spec fn site_view(landing: Option<(i32, i32)>) -> Option<(int, int)> {
    match landing {
        Some(site) => Some((site.0 as int, site.1 as int)),
        None => None,
    }
}

/// The single owner of the game's state.
#[derive(Debug)]
pub struct Dispatcher {
    server: u128,
    planet: Planet,
    clients: Vec<Client>,
    offline_rovers: Vec<Rover>,
}

impl View for Dispatcher {
    type V = World;

    closed spec fn view(&self) -> World {
        World {
            server: self.server,
            grid: self.planet@,
            sessions: clients_view(self.clients@),
            parked: rovers_view(self.offline_rovers@),
        }
    }
}

impl Dispatcher {
    /// The planet is whole and every rover stands on it.
    pub closed spec fn wf(&self) -> bool {
        self.planet.wf() && self@.wf()
    }

    /// A dispatcher is well formed exactly if its world is.
    pub proof fn lemma_wf(&self)
        requires
            self.wf(),
        ensures
            self@.wf(),
    {
    }

    /// A dispatcher for the server `server` on `planet`, with no session and
    /// no rover.
    pub fn new(server: u128, planet: Planet) -> (dispatcher: Dispatcher)
        requires
            planet.wf(),
        ensures
            dispatcher.wf(),
            dispatcher@ == (World {
                server,
                grid: planet@,
                sessions: Seq::empty(),
                parked: Seq::empty(),
            }),
    {
        proof {
            planet.lemma_wf();
        }
        let dispatcher = Dispatcher {
            server,
            planet,
            clients: Vec::new(),
            offline_rovers: Vec::new(),
        };
        assert(dispatcher@.sessions =~= Seq::empty());
        assert(dispatcher@.parked =~= Seq::empty());
        dispatcher
    }

    /// The identifier that requests must be addressed to.
    pub fn server(&self) -> (server: u128)
        ensures
            server == self@.server,
    {
        self.server
    }

    /// The planet, to look at.
    pub fn planet(&self) -> (planet: &Planet)
        requires
            self.wf(),
        ensures
            planet.wf(),
            planet@ == self@.grid,
    {
        &self.planet
    }

    /// The sessions, to look at.
    pub fn clients(&self) -> (clients: &Vec<Client>)
        ensures
            clients_view(clients@) == self@.sessions,
    {
        &self.clients
    }

    /// The parked rovers, to look at.
    pub fn offline_rovers(&self) -> (rovers: &Vec<Rover>)
        ensures
            rovers_view(rovers@) == self@.parked,
    {
        &self.offline_rovers
    }

    /// Opens a session for the connection `uuid`.
    pub fn register_session(&mut self, uuid: u128)
        requires
            old(self).wf(),
        ensures
            final(self).wf(),
            final(self)@ == old(self)@.registered(uuid),
    {
        self.clients.push(Client { uuid, rover: None });
        assert(self@.sessions =~= old(self)@.registered(uuid).sessions);
    }

    /// Where the session of the connection `uuid` stands.
    pub fn get_client_index(&self, uuid: u128) -> (index: Option<usize>)
        ensures
            match index {
                Some(i) => self@.session_of(uuid) == Some(i as int) && i < self@.sessions.len(),
                None => self@.session_of(uuid) is None,
            },
    {
        let mut index: usize = 0;
        while index < self.clients.len()
            invariant
                index <= self.clients@.len(),
                self@.session_of(uuid) == session_from(self@.sessions, uuid, index as int),
            decreases self.clients@.len() - index,
        {
            if self.clients[index].uuid == uuid {
                return Some(index);
            }
            index += 1;
        }
        None
    }

    /// Where the parked rover with the name `username` stands.
    pub fn find_offline(&self, username: &String) -> (index: Option<usize>)
        ensures
            match index {
                Some(k) => self@.parked_as(username@) == Some(k as int) && k < self@.parked.len(),
                None => self@.parked_as(username@) is None,
            },
    {
        let mut index: usize = 0;
        while index < self.offline_rovers.len()
            invariant
                index <= self.offline_rovers@.len(),
                self@.parked_as(username@) == rover_from(self@.parked, username@, index as int),
            decreases self.offline_rovers@.len() - index,
        {
            if self.offline_rovers[index].username == *username {
                return Some(index);
            }
            index += 1;
        }
        None
    }

    /// Closes the session of the connection `uuid`, if there is one, and
    /// parks its rover, if it has one.
    pub fn remove_session(&mut self, uuid: u128)
        requires
            old(self).wf(),
        ensures
            final(self).wf(),
            final(self)@ == old(self)@.removed(uuid),
    {
        match self.get_client_index(uuid) {
            Some(index) => {
                let client = self.clients.remove(index);
                match client.rover {
                    Some(rover) => {
                        assert(old(self)@.sessions[index as int].rover == Some(rover@));
                        self.offline_rovers.push(rover);
                    },
                    None => {},
                }
                assert(self@.sessions =~= old(self)@.removed(uuid).sessions);
                assert(self@.parked =~= old(self)@.removed(uuid).parked);
            },
            None => {},
        }
    }

    /// Where a new rover lands: where the caller says, or on a cell of air
    /// drawn at random.
    fn landing(&self, fixed: Option<Option<(i32, i32)>>) -> (landing: Option<(i32, i32)>)
        requires
            self.wf(),
        ensures
            match fixed {
                Some(site) => landing == site,
                None => fair_landing(self@.grid, site_view(landing)),
            },
    {
        match fixed {
            Some(site) => site,
            None => match self.planet.random_cell(CellType::Air) {
                Some(cell) => Some((cell.x, cell.y)),
                None => None,
            },
        }
    }

    /// Handles a request to log in from the session at `index`, which has
    /// no rover.
    fn login(
        &mut self,
        index: usize,
        username: String,
        password: String,
        fixed: Option<Option<(i32, i32)>>,
    ) -> (reply: Option<Message>)
        requires
            old(self).wf(),
            index < old(self)@.sessions.len(),
            old(self)@.sessions[index as int].rover is None,
        ensures
            final(self).wf(),
            exists|landing: Option<(int, int)>|
                {
                    &&& fixed matches Some(site) ==> landing == site_view(site)
                    &&& fixed is None ==> fair_landing(old(self)@.grid, landing)
                    &&& final(self)@ == (#[trigger] old(self)@.login(
                        index as int,
                        username@,
                        password@,
                        landing,
                    )).world
                    &&& reply_view(reply) == old(self)@.login(
                        index as int,
                        username@,
                        password@,
                        landing,
                    ).reply
                },
    {
        let to = self.clients[index].uuid;
        let ghost before = self@;
        match self.find_offline(&username) {
            Some(k) => {
                proof {
                    lemma_fair_landing_exists(before.grid);
                }
                let ghost landing = match fixed {
                    Some(site) => site_view(site),
                    None => choose|landing: Option<(int, int)>| fair_landing(before.grid, landing),
                };
                if !(self.offline_rovers[k].password == password) {
                    let reply = self.reply_to(to, "login failed");
                    assert(before.login(index as int, username@, password@, landing).world
                        == before);
                    return reply;
                }
                let rover = self.offline_rovers.remove(k);
                self.clients[index].rover = Some(rover);
                let reply = self.reply_to(to, "login successful");
                proof {
                    let after = before.login(index as int, username@, password@, landing).world;
                    assert(self@.sessions =~= after.sessions);
                    assert(self@.parked =~= after.parked);
                }
                reply
            },
            None => {
                let site = self.landing(fixed);
                let ghost landing = site_view(site);
                match site {
                    Some((x, y)) => {
                        if self.planet.get_cell_type(x, y) == CellType::Air {
                            self.clients[index].rover = Some(Rover::new(username, password, x, y));
                            let reply = self.reply_to(to, "login successful");
                            proof {
                                let after = before.login(
                                    index as int,
                                    username@,
                                    password@,
                                    landing,
                                ).world;
                                assert(self@.sessions =~= after.sessions);
                            }
                            reply
                        } else {
                            let reply = self.reply_to(to, "login failed");
                            assert(before.login(index as int, username@, password@, landing).world
                                == before);
                            reply
                        }
                    },
                    None => {
                        let reply = self.reply_to(to, "login failed");
                        assert(before.login(index as int, username@, password@, landing).world
                            == before);
                        reply
                    },
                }
            },
        }
    }

    /// Handles a request from the session at `index`, which has no rover.
    fn greet(&mut self, index: usize, command: Command, fixed: Option<Option<(i32, i32)>>) -> (reply:
        Option<Message>)
        requires
            old(self).wf(),
            index < old(self)@.sessions.len(),
            old(self)@.sessions[index as int].rover is None,
        ensures
            final(self).wf(),
            exists|landing: Option<(int, int)>|
                {
                    &&& fixed matches Some(site) ==> landing == site_view(site)
                    &&& fixed is None ==> fair_landing(old(self)@.grid, landing)
                    &&& final(self)@ == (#[trigger] old(self)@.greet(
                        index as int,
                        command@,
                        landing,
                    )).world
                    &&& reply_view(reply) == old(self)@.greet(index as int, command@, landing).reply
                },
    {
        let to = self.clients[index].uuid;
        let ghost before = self@;
        match command {
            Command::Login { username, password } => {
                let reply = self.login(index, username, password, fixed);
                proof {
                    let landing = choose|landing: Option<(int, int)>|
                        {
                            &&& fixed matches Some(site) ==> landing == site_view(site)
                            &&& fixed is None ==> fair_landing(before.grid, landing)
                            &&& self@ == (#[trigger] before.login(
                                index as int,
                                username@,
                                password@,
                                landing,
                            )).world
                            &&& reply_view(reply) == before.login(
                                index as int,
                                username@,
                                password@,
                                landing,
                            ).reply
                        };
                    assert(before.greet(index as int, command@, landing) == before.login(
                        index as int,
                        username@,
                        password@,
                        landing,
                    ));
                }
                reply
            },
            Command::BadLogin => {
                proof {
                    lemma_fair_landing_exists(before.grid);
                    let landing = match fixed {
                        Some(site) => site_view(site),
                        None => choose|landing: Option<(int, int)>|
                            fair_landing(before.grid, landing),
                    };
                    assert(before.greet(index as int, command@, landing).world == before);
                }
                self.reply_to(to, "login failed")
            },
            _ => {
                proof {
                    lemma_fair_landing_exists(before.grid);
                    let landing = match fixed {
                        Some(site) => site_view(site),
                        None => choose|landing: Option<(int, int)>|
                            fair_landing(before.grid, landing),
                    };
                    assert(before.greet(index as int, command@, landing).world == before);
                }
                self.reply_to(to, "not signed in")
            },
        }
    }

    /// Handles a request from the session at `index`, which has a rover.
    fn serve(&mut self, index: usize, command: Command) -> (reply: Option<Message>)
        requires
            old(self).wf(),
            index < old(self)@.sessions.len(),
            old(self)@.sessions[index as int].rover is Some,
        ensures
            final(self).wf(),
            final(self)@ == old(self)@.serve(index as int, command@).world,
            reply_view(reply) == old(self)@.serve(index as int, command@).reply,
    {
        let ghost before = self@;
        let ghost outcome = before.serve(index as int, command@);
        let to = self.clients[index].uuid;
        let mut rover = self.clients[index].rover.take().unwrap();
        let ghost start = rover@;
        self.planet.set_celltype(rover.x, rover.y, CellType::Air);
        let ghost vacated = self.planet@;
        let mut text: Option<String> = None;
        let mut leaving = false;
        match command {
            Command::Position => {
                text = Some(rover.position());
            },
            Command::Forward => {
                rover.forward(&self.planet);
            },
            Command::TurnLeft => {
                rover.rotate(false);
            },
            Command::TurnRight => {
                rover.rotate(true);
            },
            Command::Scan => {
                text = Some(rover.scan(&self.planet));
            },
            Command::Dig => {
                let reward = rover.dig_reward(&self.planet);
                if rover.points <= u32::MAX - reward {
                    rover.dig(&mut self.planet);
                }
            },
            Command::Disconnect => {
                leaving = true;
            },
            _ => {},
        }
        proof {
            lemma_with_kind(before.grid, start.x, start.y, CellType::Air, 0, 0);
            assert(rover@ == World::rover_after(start, vacated, command@));
            assert(self.planet@ == World::grid_after(start, vacated, command@));
            assert(vacated.contains(rover@.x, rover@.y));
            assert(self.planet@.size == before.grid.size);
        }
        self.planet.set_celltype(rover.x, rover.y, CellType::Rover);
        let reply = match text {
            Some(line) => self.reply_to(to, line.as_str()),
            None => None,
        };
        if leaving {
            self.offline_rovers.push(rover);
            let _ = self.clients.remove(index);
        } else {
            self.clients[index].rover = Some(rover);
        }
        proof {
            self.planet.lemma_wf();
            assert(self@.sessions =~= outcome.world.sessions);
            assert(self@.parked =~= outcome.world.parked);
            assert(self@.grid.size == before.grid.size);
            assert forall|i: int| 0 <= i < self@.sessions.len() implies ((
            #[trigger] self@.sessions[i]).rover matches Some(other) ==> self@.grid.contains(
                other.x,
                other.y,
            )) by {
                if leaving {
                    if i < index {
                        assert(self@.sessions[i] == before.sessions[i]);
                    } else {
                        assert(self@.sessions[i] == before.sessions[i + 1]);
                    }
                } else if i != index {
                    assert(self@.sessions[i] == before.sessions[i]);
                }
            }
            assert forall|k: int| 0 <= k < self@.parked.len() implies self@.grid.contains(
                (#[trigger] self@.parked[k]).x,
                self@.parked[k].y,
            ) by {
                if k < before.parked.len() {
                    assert(self@.parked[k] == before.parked[k]);
                }
            }
        }
        reply
    }

    /// Handles one envelope, with a landing site that is given or drawn.
    fn handle(&mut self, message: &Message, fixed: Option<Option<(i32, i32)>>) -> (reply: Option<
        Message,
    >)
        requires
            old(self).wf(),
        ensures
            final(self).wf(),
            exists|landing: Option<(int, int)>|
                {
                    &&& fixed matches Some(site) ==> landing == site_view(site)
                    &&& fixed is None ==> fair_landing(old(self)@.grid, landing)
                    &&& final(self)@ == (#[trigger] old(self)@.handle(message@, landing)).world
                    &&& reply_view(reply) == old(self)@.handle(message@, landing).reply
                },
    {
        let ghost before = self@;
        proof {
            lemma_fair_landing_exists(before.grid);
        }
        let ghost any = match fixed {
            Some(site) => site_view(site),
            None => choose|landing: Option<(int, int)>| fair_landing(before.grid, landing),
        };
        if message.target != self.server {
            assert(before.handle(message@, any).world == before);
            return None;
        }
        let text = match read_utf8(message.data.as_slice()) {
            Some(text) => text,
            None => {
                assert(before.handle(message@, any).world == before);
                return None;
            },
        };
        let command = parse_command(text);
        let index = match self.get_client_index(message.author) {
            Some(index) => index,
            None => {
                assert(before.handle(message@, any).world == before);
                return None;
            },
        };
        if self.clients[index].rover.is_some() {
            let reply = self.serve(index, command);
            assert(before.handle(message@, any) == before.serve(index as int, command@));
            reply
        } else {
            let reply = self.greet(index, command, fixed);
            proof {
                let landing = choose|landing: Option<(int, int)>|
                    {
                        &&& fixed matches Some(site) ==> landing == site_view(site)
                        &&& fixed is None ==> fair_landing(before.grid, landing)
                        &&& self@ == (#[trigger] before.greet(index as int, command@, landing)).world
                        &&& reply_view(reply) == before.greet(index as int, command@, landing).reply
                    };
                assert(before.handle(message@, landing) == before.greet(
                    index as int,
                    command@,
                    landing,
                ));
            }
            reply
        }
    }

    /// Takes one envelope off the bus: reads it, changes the world as it
    /// asks and hands back the answer, if the request has one. A player who
    /// logs in under a new name gets a rover on a cell of air drawn at
    /// random; but for that cell, the outcome is what [`World::handle`]
    /// says.
    pub fn dispatch(&mut self, message: &Message) -> (reply: Option<Message>)
        requires
            old(self).wf(),
        ensures
            final(self).wf(),
            exists|landing: Option<(int, int)>|
                {
                    &&& fair_landing(old(self)@.grid, landing)
                    &&& final(self)@ == (#[trigger] old(self)@.handle(message@, landing)).world
                    &&& reply_view(reply) == old(self)@.handle(message@, landing).reply
                },
    {
        self.handle(message, None)
    }

    /// Takes one envelope off the bus as [`Dispatcher::dispatch`] does, but
    /// with the landing site of a new rover named by the caller. A site that
    /// is not air lets the login fail.
    pub fn dispatch_at(&mut self, message: &Message, landing: Option<(i32, i32)>) -> (reply: Option<
        Message,
    >)
        requires
            old(self).wf(),
        ensures
            final(self).wf(),
            final(self)@ == old(self)@.handle(message@, site_view(landing)).world,
            reply_view(reply) == old(self)@.handle(message@, site_view(landing)).reply,
    {
        self.handle(message, Some(landing))
    }

    /// An answer of the server to the connection `to`.
    fn reply_to(&self, to: u128, text: &str) -> (reply: Option<Message>)
        ensures
            reply_view(reply) == self@.answer(to, text@),
    {
        Some(Message { author: self.server, target: to, data: text.as_bytes_vec() })
    }
}

} // verus!
