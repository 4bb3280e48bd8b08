//! Channels and who is in them: creating, joining, leaving, inviting.

use vstd::prelude::*;
use crate::conversation::{Channel, ChannelInfo};
use crate::curb::{default_channel_name, Context, Curb, Error};
use crate::message::MessageView;
use crate::names::{lemma_index_of_unique, lemma_with_name, lemma_without_name, without_name, StrSet};

verus! {

impl Curb {
    /// There are a channel at position `ci` and an account that has joined
    /// at position `mi` of their tables.
    pub open spec fn placed(&self, ci: int, mi: int) -> bool {
        &&& 0 <= ci < self.channels.vals@.len()
        &&& ci < self.channel_members.vals@.len()
        &&& 0 <= mi < self.member_channels.vals@.len()
        &&& self.channel_members.names()[ci] == self.channels.names()[ci]
    }

    /// A channel and its member set stand at the same position.
    pub proof fn lemma_placed(self, ci: int, mi: int)
        requires
            self.tables_wf(),
            0 <= ci < self.channels.vals@.len(),
            0 <= mi < self.member_channels.vals@.len(),
        ensures
            self.placed(ci, mi),
    {
        assert(self.channels.names().len() == self.channel_members.names().len());
    }

    /// Lets the channel at `ci` and the account at `mi` list each other.
    fn link(&mut self, ci: usize, mi: usize)
        requires
            old(self).tables_wf(),
            old(self).contents_wf(),
            old(self).mirrored(),
            old(self).placed(ci as int, mi as int),
        ensures
            final(self).tables_wf(),
            final(self).contents_wf(),
            final(self).mirrored(),
            final(self).linked(
                *old(self),
                old(self).member_channels.names()[mi as int],
                old(self).channels.names()[ci as int],
            ),
            final(self).same_beyond_groups(*old(self)),
            final(self).members == old(self).members,
            final(self).member_keys == old(self).member_keys,
            final(self).channel_members.names() == old(self).channel_members.names(),
            final(self).member_channels.names() == old(self).member_channels.names(),
    {
        let member = self.member_channels.keys.items[mi].clone();
        let channel = self.channels.keys.items[ci].clone();
        let ghost id = member@;
        let ghost name = channel@;
        proof {
            lemma_with_name(self.channel_members.vals@[ci as int].names(), id);
            lemma_with_name(self.member_channels.vals@[mi as int].names(), name);
        }
        self.channel_members.vals[ci].insert(member);
        self.member_channels.vals[mi].insert(channel);
        proof {
            let before = *old(self);
            self.channel_members.lemma_changed_at(before.channel_members, ci as int);
            self.member_channels.lemma_changed_at(before.member_channels, mi as int);
            assert forall|c: Seq<char>, m: Seq<char>|
                #![trigger self.in_channel(c, m)]
                #![trigger self.lists_channel(m, c)]
                self.in_channel(c, m) <==> self.lists_channel(m, c) by {
                assert(before.in_channel(c, m) <==> before.lists_channel(m, c));
                if c != name && before.channels.has(c) {
                    assert(before.channel_members.has(c));
                }
                if m != id && before.member_channels.has(m) {
                    assert(self.member_channels.at(m) == before.member_channels.at(m));
                }
            }
            assert forall|m: Seq<char>| #[trigger] self.member_channels.has(m) implies self.members.has(
                m,
            ) by {
                assert(before.member_channels.has(m));
            }
        }
    }

    /// Lets the channel at `ci` and the account at `mi` no longer list each
    /// other.
    fn unlink(&mut self, ci: usize, mi: usize)
        requires
            old(self).tables_wf(),
            old(self).contents_wf(),
            old(self).mirrored(),
            old(self).placed(ci as int, mi as int),
        ensures
            final(self).tables_wf(),
            final(self).contents_wf(),
            final(self).mirrored(),
            final(self).unlinked(
                *old(self),
                old(self).member_channels.names()[mi as int],
                old(self).channels.names()[ci as int],
            ),
            final(self).same_beyond_groups(*old(self)),
            final(self).members == old(self).members,
            final(self).member_keys == old(self).member_keys,
            final(self).channel_members.names() == old(self).channel_members.names(),
            final(self).member_channels.names() == old(self).member_channels.names(),
            final(self).channel_members.vals@[ci as int].names() == final(self).members_of(
                old(self).channels.names()[ci as int],
            ),
    {
        let member = self.member_channels.keys.items[mi].clone();
        let channel = self.channels.keys.items[ci].clone();
        let ghost id = member@;
        let ghost name = channel@;
        proof {
            lemma_without_name(self.channel_members.vals@[ci as int].names(), id);
            lemma_without_name(self.member_channels.vals@[mi as int].names(), name);
        }
        self.channel_members.vals[ci].remove(&member);
        self.member_channels.vals[mi].remove(&channel);
        proof {
            let before = *old(self);
            self.channel_members.lemma_changed_at(before.channel_members, ci as int);
            self.member_channels.lemma_changed_at(before.member_channels, mi as int);
            assert forall|c: Seq<char>, m: Seq<char>|
                #![trigger self.in_channel(c, m)]
                #![trigger self.lists_channel(m, c)]
                self.in_channel(c, m) <==> self.lists_channel(m, c) by {
                assert(before.in_channel(c, m) <==> before.lists_channel(m, c));
                if c != name && before.channels.has(c) {
                    assert(before.channel_members.has(c));
                }
                if m != id && before.member_channels.has(m) {
                    assert(self.member_channels.at(m) == before.member_channels.at(m));
                }
            }
            assert forall|m: Seq<char>| #[trigger] self.member_channels.has(m) implies self.members.has(
                m,
            ) by {
                assert(before.member_channels.has(m));
            }
        }
    }

    /// Why a call of the caller of `ctx` on the channel `name` is rejected,
    /// if it is: there is no such channel, or the account has not joined.
    pub open spec fn group_verdict(&self, name: Seq<char>, id: Seq<char>) -> Result<(), Error> {
        if !self.has_channel(name) {
            Err(Error::NotFound)
        } else if !self.has_joined(id) {
            Err(Error::NotAMember)
        } else {
            Ok(())
        }
    }

    /// Adds the caller to the members of a channel, and records its
    /// activity. A call that is rejected changes nothing.
    pub fn join_group(&mut self, ctx: &Context, group: &Channel) -> (r: Result<(), Error>)
        requires
            old(self).wf(),
        ensures
            final(self).wf(),
            r == old(self).group_verdict(group.name@, ctx.caller@),
            r is Err ==> *final(self) == *old(self),
            r is Ok ==> {
                &&& final(self).linked(*old(self), ctx.caller@, group.name@)
                &&& final(self).activity_recorded(*old(self), *ctx)
                &&& final(self).same_beyond_groups(*old(self))
            },
    {
        let ci = match self.channels.find(&group.name) {
            Some(i) => i,
            None => { return Err(Error::NotFound); },
        };
        let mi = match self.member_channels.find(&ctx.caller) {
            Some(i) => i,
            None => { return Err(Error::NotAMember); },
        };
        proof {
            self.lemma_placed(ci as int, mi as int);
        }
        self.link(ci, mi);
        self.register_activity(ctx);
        Ok(())
    }

    /// Adds another account to the members of a channel, and records the
    /// caller's activity. A call that is rejected changes nothing.
    pub fn group_invite(&mut self, ctx: &Context, group: &Channel, account: &String) -> (r: Result<
        (),
        Error,
    >)
        requires
            old(self).wf(),
        ensures
            final(self).wf(),
            r == old(self).group_verdict(group.name@, account@),
            r is Err ==> *final(self) == *old(self),
            r is Ok ==> {
                &&& final(self).linked(*old(self), account@, group.name@)
                &&& final(self).activity_recorded(*old(self), *ctx)
                &&& final(self).same_beyond_groups(*old(self))
            },
    {
        let ci = match self.channels.find(&group.name) {
            Some(i) => i,
            None => { return Err(Error::NotFound); },
        };
        let mi = match self.member_channels.find(account) {
            Some(i) => i,
            None => { return Err(Error::NotAMember); },
        };
        proof {
            self.lemma_placed(ci as int, mi as int);
        }
        self.link(ci, mi);
        self.register_activity(ctx);
        Ok(())
    }

    /// Takes the caller out of the members of a channel, and records its
    /// activity. A channel other than the default one is removed, with its
    /// member set, once it has no member. A call that is rejected changes
    /// nothing.
    pub fn leave_group(&mut self, ctx: &Context, group: &Channel) -> (r: Result<(), Error>)
        requires
            old(self).wf(),
        ensures
            final(self).wf(),
            r == old(self).group_verdict(group.name@, ctx.caller@),
            r is Err ==> *final(self) == *old(self),
            r is Ok ==> {
                &&& final(self).activity_recorded(*old(self), *ctx)
                &&& final(self).same_beyond_groups(*old(self))
                &&& final(self).member_channels.differs_only_at(
                    old(self).member_channels,
                    ctx.caller@,
                )
                &&& final(self).groups_of(ctx.caller@) == without_name(
                    old(self).groups_of(ctx.caller@),
                    group.name@,
                )
                &&& final(self).has_channel(group.name@) == (without_name(
                    old(self).members_of(group.name@),
                    ctx.caller@,
                ).len() > 0 || group.name@ == default_channel_name())
                &&& final(self).has_channel(group.name@) ==> {
                    &&& final(self).channels == old(self).channels
                    &&& final(self).channel_members.differs_only_at(
                        old(self).channel_members,
                        group.name@,
                    )
                    &&& final(self).members_of(group.name@) == without_name(
                        old(self).members_of(group.name@),
                        ctx.caller@,
                    )
                }
                &&& !final(self).has_channel(group.name@) ==> {
                    &&& final(self).channels.names() == without_name(
                        old(self).channels.names(),
                        group.name@,
                    )
                    &&& forall|c: Seq<char>|
                        c != group.name@ && #[trigger] old(self).has_channel(c) ==> {
                            &&& final(self).has_channel(c)
                            &&& final(self).channels.at(c) == old(self).channels.at(c)
                            &&& final(self).members_of(c) == old(self).members_of(c)
                        }
                }
            },
    {
        let ci = match self.channels.find(&group.name) {
            Some(i) => i,
            None => { return Err(Error::NotFound); },
        };
        let mi = match self.member_channels.find(&ctx.caller) {
            Some(i) => i,
            None => { return Err(Error::NotAMember); },
        };
        proof {
            self.lemma_placed(ci as int, mi as int);
        }
        self.unlink(ci, mi);
        let default = Curb::default_channel();
        if self.channel_members.vals[ci].is_empty() && group.name != default.name {
            let ghost left = *self;
            proof {
                lemma_index_of_unique(self.channels.names(), group.name@, ci as int);
            }
            self.channel_members.remove_at(ci);
            self.channels.remove_at(ci);
            proof {
                assert forall|c: Seq<char>, m: Seq<char>|
                    #![trigger self.in_channel(c, m)]
                    #![trigger self.lists_channel(m, c)]
                    self.in_channel(c, m) <==> self.lists_channel(m, c) by {
                    assert(left.in_channel(c, m) <==> left.lists_channel(m, c));
                    if c != group.name@ && left.channels.has(c) {
                        assert(left.channel_members.has(c));
                    }
                }
                assert forall|c: Seq<char>|
                    c != group.name@ && #[trigger] old(self).has_channel(c) implies {
                    &&& self.has_channel(c)
                    &&& self.channels.at(c) == old(self).channels.at(c)
                    &&& self.members_of(c) == old(self).members_of(c)
                } by {
                    assert(left.channels.has(c));
                    assert(left.channel_members.has(c));
                    assert(old(self).channel_members.has(c));
                }
            }
        } else {
            proof {
                lemma_index_of_unique(self.channels.names(), group.name@, ci as int);
            }
        }
        self.register_activity(ctx);
        Ok(())
    }

    /// Why the creation of a channel `name` by the account `id` is rejected,
    /// if it is.
    pub open spec fn creation_verdict(
        &self,
        name: Seq<char>,
        id: Seq<char>,
        membership_required: bool,
    ) -> Result<(), Error> {
        if name.len() == 0 {
            Err(Error::InvalidArgument)
        } else if self.has_channel(name) {
            Err(Error::AlreadyExists)
        } else if membership_required && !self.has_joined(id) {
            Err(Error::NotAMember)
        } else {
            Ok(())
        }
    }

    /// The state is `before` with the new, empty, public channel `name`,
    /// created by the caller of `ctx` at its time.
    pub open spec fn channel_added(&self, before: Curb, name: Seq<char>, ctx: Context) -> bool {
        &&& self.channels.names() == before.channels.names().push(name)
        &&& self.channel_members.names() == before.channel_members.names().push(name)
        &&& forall|c: Seq<char>| #[trigger]
            before.has_channel(c) ==> {
                &&& self.has_channel(c)
                &&& self.channels.at(c) == before.channels.at(c)
                &&& self.channel_members.at(c) == before.channel_members.at(c)
            }
        &&& self.has_channel(name)
        &&& self.channels.at(name).log() == Seq::<MessageView>::empty()
        &&& self.channels.at(name).is_public
        &&& self.channels.at(name).meta.created_at == ctx.now
        &&& self.channels.at(name).meta.created_by@ == ctx.caller@
        &&& forall|reader: Seq<char>| self.channels.at(name).cursor(reader) is None
    }

    /// Adds the new channel `group`, without members.
    fn add_channel(&mut self, ctx: &Context, group: &Channel)
        requires
            old(self).tables_wf(),
            old(self).contents_wf(),
            old(self).mirrored(),
            !old(self).has_channel(group.name@),
        ensures
            final(self).tables_wf(),
            final(self).contents_wf(),
            final(self).mirrored(),
            final(self).channel_added(*old(self), group.name@, *ctx),
            final(self).members_of(group.name@) == Seq::<Seq<char>>::empty(),
            final(self).same_beyond_groups(*old(self)),
            final(self).members == old(self).members,
            final(self).member_keys == old(self).member_keys,
            final(self).member_channels == old(self).member_channels,
            final(self).channels.slot(group.name@) == old(self).channels.vals@.len(),
    {
        let info = ChannelInfo::new(true, ctx.now, ctx.caller.clone());
        self.channels.add(group.name.clone(), info);
        self.channel_members.add(group.name.clone(), StrSet::new());
        proof {
            let before = *old(self);
            assert forall|c: Seq<char>, m: Seq<char>|
                #![trigger self.in_channel(c, m)]
                #![trigger self.lists_channel(m, c)]
                self.in_channel(c, m) <==> self.lists_channel(m, c) by {
                assert(before.in_channel(c, m) <==> before.lists_channel(m, c));
                if before.channels.has(c) {
                    assert(before.channel_members.has(c));
                }
            }
        }
    }

    /// Creates a channel; if `membership_required`, for a caller that has
    /// joined, which then is its first member.
    fn internal_create_group(
        &mut self,
        ctx: &Context,
        group: &Channel,
        membership_required: bool,
    ) -> (r: Result<(), Error>)
        requires
            old(self).wf(),
        ensures
            final(self).wf(),
            r == old(self).creation_verdict(group.name@, ctx.caller@, membership_required),
            r is Err ==> *final(self) == *old(self),
            r is Ok ==> final(self).channel_added(*old(self), group.name@, *ctx),
            r is Ok ==> final(self).same_beyond_groups(*old(self)),
            r is Ok && membership_required ==> {
                &&& final(self).activity_recorded(*old(self), *ctx)
                &&& final(self).members_of(group.name@) == seq![ctx.caller@]
                &&& final(self).member_channels.differs_only_at(
                    old(self).member_channels,
                    ctx.caller@,
                )
                &&& final(self).groups_of(ctx.caller@) == old(self).groups_of(ctx.caller@).push(
                    group.name@,
                )
            },
            r is Ok && !membership_required ==> {
                &&& final(self).members == old(self).members
                &&& final(self).member_keys == old(self).member_keys
                &&& final(self).member_channels == old(self).member_channels
                &&& final(self).members_of(group.name@) == Seq::<Seq<char>>::empty()
            },
    {
        if group.name.as_str().is_empty() {
            return Err(Error::InvalidArgument);
        }
        if self.channels.contains_key(&group.name) {
            return Err(Error::AlreadyExists);
        }
        if !membership_required {
            self.add_channel(ctx, group);
            return Ok(());
        }
        let mi = match self.member_channels.find(&ctx.caller) {
            Some(i) => i,
            None => { return Err(Error::NotAMember); },
        };
        let ghost held = self.member_channels.vals@[mi as int].names();
        proof {
            lemma_index_of_unique(self.member_channels.names(), ctx.caller@, mi as int);
            // The caller does not list a channel that does not exist.
            assert(!self.in_channel(group.name@, ctx.caller@));
            assert(!self.lists_channel(ctx.caller@, group.name@));
        }
        self.add_channel(ctx, group);
        let ci = self.channels.len() - 1;
        let ghost added = *self;
        proof {
            self.lemma_placed(ci as int, mi as int);
        }
        self.link(ci, mi);
        proof {
            assert(self.members_of(group.name@) =~= seq![ctx.caller@]);
            assert forall|c: Seq<char>| #[trigger] old(self).has_channel(c) implies {
                &&& self.has_channel(c)
                &&& self.channels.at(c) == old(self).channels.at(c)
                &&& self.channel_members.at(c) == old(self).channel_members.at(c)
            } by {
                assert(added.has_channel(c));
                assert(added.channel_members.has(c));
            }
        }
        self.register_activity(ctx);
        Ok(())
    }

    /// Creates a channel with the caller, who must have joined, as its first
    /// member, and records the caller's activity. A call that is rejected
    /// changes nothing.
    pub fn create_group(&mut self, ctx: &Context, group: &Channel) -> (r: Result<(), Error>)
        requires
            old(self).wf(),
        ensures
            final(self).wf(),
            r == old(self).creation_verdict(group.name@, ctx.caller@, true),
            r is Err ==> *final(self) == *old(self),
            r is Ok ==> {
                &&& final(self).channel_added(*old(self), group.name@, *ctx)
                &&& final(self).same_beyond_groups(*old(self))
                &&& final(self).activity_recorded(*old(self), *ctx)
                &&& final(self).members_of(group.name@) == seq![ctx.caller@]
                &&& final(self).member_channels.differs_only_at(
                    old(self).member_channels,
                    ctx.caller@,
                )
                &&& final(self).groups_of(ctx.caller@) == old(self).groups_of(ctx.caller@).push(
                    group.name@,
                )
            },
    {
        self.internal_create_group(ctx, group, true)
    }

    /// Why the joining of the account `id` is rejected, if it is: it has been
    /// seen before.
    pub open spec fn join_verdict(&self, id: Seq<char>) -> Result<(), Error> {
        if self.is_member(id) {
            Err(Error::AlreadyMember)
        } else {
            Ok(())
        }
    }

    /// Makes the caller a member and joins it to the default channel, which
    /// is created for the first account that joins. A call that is rejected
    /// changes nothing.
    pub fn join(&mut self, ctx: &Context) -> (r: Result<(), Error>)
        requires
            old(self).wf(),
        ensures
            final(self).wf(),
            r == old(self).join_verdict(ctx.caller@),
            r is Err ==> *final(self) == *old(self),
            r is Ok ==> {
                &&& final(self).activity_recorded(*old(self), *ctx)
                &&& final(self).same_beyond_groups(*old(self))
                &&& final(self).member_channels.names() == old(self).member_channels.names().push(
                    ctx.caller@,
                )
                &&& final(self).member_channels.differs_only_at(
                    old(self).member_channels,
                    ctx.caller@,
                )
                &&& final(self).groups_of(ctx.caller@) == seq![default_channel_name()]
                &&& final(self).has_channel(default_channel_name())
                &&& final(self).in_channel(default_channel_name(), ctx.caller@)
                &&& final(self).lists_channel(ctx.caller@, default_channel_name())
                &&& old(self).has_channel(default_channel_name()) ==> {
                    &&& final(self).channels == old(self).channels
                    &&& final(self).channel_members.differs_only_at(
                        old(self).channel_members,
                        default_channel_name(),
                    )
                    &&& final(self).members_of(default_channel_name()) == old(self).members_of(
                        default_channel_name(),
                    ).push(ctx.caller@)
                }
                &&& !old(self).has_channel(default_channel_name()) ==> {
                    &&& final(self).channel_added(*old(self), default_channel_name(), *ctx)
                    &&& final(self).members_of(default_channel_name()) == seq![ctx.caller@]
                }
            },
    {
        if self.members.contains_key(&ctx.caller) {
            return Err(Error::AlreadyMember);
        }
        let general = Curb::default_channel();
        let found = self.channels.find(&general.name);
        let ghost first = found is None;
        proof {
            reveal_strlit("general");
            // An account that was never seen has not joined and is in no channel.
            assert(!self.has_joined(ctx.caller@));
            assert forall|c: Seq<char>| !self.in_channel(c, ctx.caller@) by {
                assert(!self.lists_channel(ctx.caller@, c));
            }
        }
        self.register_activity(ctx);
        let ghost seen = *self;
        let ci = match found {
            Some(i) => i,
            None => {
                let created = self.internal_create_group(ctx, &general, false);
                assert(created is Ok);
                self.channels.len() - 1
            },
        };
        let ghost ready = *self;
        self.member_channels.add(ctx.caller.clone(), StrSet::new());
        let mi = self.member_channels.len() - 1;
        proof {
            assert forall|c: Seq<char>, m: Seq<char>|
                #![trigger self.in_channel(c, m)]
                #![trigger self.lists_channel(m, c)]
                self.in_channel(c, m) <==> self.lists_channel(m, c) by {
                assert(ready.in_channel(c, m) <==> ready.lists_channel(m, c));
                assert(ready.in_channel(c, m) == old(self).in_channel(c, m) || first);
                if m == ctx.caller@ {
                    assert(!old(self).in_channel(c, m));
                    if first && ready.channels.has(c) {
                        assert(c == default_channel_name() || seen.channels.has(c));
                    }
                    assert(!ready.in_channel(c, m));
                }
            }
            assert forall|m: Seq<char>| #[trigger] self.member_channels.has(m) implies self.members.has(
                m,
            ) by {
                if m != ctx.caller@ {
                    assert(old(self).member_channels.has(m));
                    assert(old(self).members.has(m));
                }
            }
            self.lemma_placed(ci as int, mi as int);
            lemma_index_of_unique(self.channels.names(), default_channel_name(), ci as int);
        }
        let ghost seated = *self;
        self.link(ci, mi);
        proof {
            assert(self.groups_of(ctx.caller@) =~= seq![default_channel_name()]);
            if first {
                assert(self.members_of(default_channel_name()) =~= seq![ctx.caller@]);
                assert forall|c: Seq<char>| #[trigger] old(self).has_channel(c) implies {
                    &&& self.has_channel(c)
                    &&& self.channels.at(c) == old(self).channels.at(c)
                    &&& self.channel_members.at(c) == old(self).channel_members.at(c)
                } by {
                    assert(seen.has_channel(c));
                    assert(ready.channel_members.has(c));
                }
            } else {
                assert(!old(self).in_channel(default_channel_name(), ctx.caller@));
            }
            assert forall|x: Seq<char>|
                x != ctx.caller@ && #[trigger] old(self).member_channels.has(x) implies self.member_channels.at(
                x,
            ) == old(self).member_channels.at(x) by {
                assert(seated.member_channels.has(x));
            }
        }
        Ok(())
    }
}

} // verus!
