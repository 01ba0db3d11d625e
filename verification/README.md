# gbfr_logs

Verified core of a combat-log parser and of its Endless Mode hooks.

`src/` is the library, written in Verus and proved:

- `constants`: the characters the parser singles out.
- `events`: the integer part of a damage event, and the messages the hooks send.
- `skill_state`: per-skill damage, and which skill a hit belongs to.
- `player_state`: a player's damage, skill and buff breakdown, with Ferry's
  pet-skill attribution.
- `runs`: Endless Mode runs and rooms as read back from storage.
- `endless`: what the Endless Mode hooks read and which messages they send.

Characters arrive already resolved from the game's type hashes
(`CharacterType`), and Ferry's pet-skill ids are handed in as `FerrySkillIds`:
neither table is part of this crate.

`app/` holds what stays outside the proofs: the SQLite storage of runs (with
the serde copies of the run types), the floating-point statistics of a player
(damage per second, stun, the share of a hit credited to each attack buff) and
the detours that install the hooks. It asks the library before every call that
has a precondition.
