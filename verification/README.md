# fre

The rules engine of Familiar: stat blocks whose derived stats follow the stats they read,
items (objects, features, assets, constructors, actions) with their metadata, the inputs a
constructor asks for, rulebook settings and the registry a build fills, the dependency
scan of Lua sources, and the commands the desktop application offers on top.

`src/` is the library, written in Verus: every function carries a contract, and the laws
the engine keeps (a read after a write, what a stat change tells its readers, what a copy
of a stat block keeps, first registration wins, holding and releasing a cached item) are
proved there as public proof functions. Calls into uuid, lualexer, line-span, base64 and
image go through small trusted wrappers whose contracts are stated in their doc comments.

`app/` is the command line tool around it: the Lua runtime (mlua), storage in pak files
(pak_db, serde), the build of a rulebook folder (glob) and the application's commands.

`tests/` runs the library on concrete values.
