# alterbot

A Discord bot for a Minecraft community: yes / no and weighted polls with
buttons, an "are we there yet" report on which mods of a packwiz modpack
support a Minecraft version, a Minecraft server status command, quotes, a
rule against approving one's own messages, and a small authenticated web API.

The decisions and texts of the bot live in `src/`, verified with Verus:
poll descriptions, results charts and audit logs, the poll index and its
expiry, vote and refresh button ids, the modpack listing, configuration
layering and token checks, web request validation and replies. Each public
function states its result in `ensures`; the laws that relate several
functions are public proof functions next to them.

`app/` is the program around the library: the Discord client (poise and
serenity), the database (sea-orm), the HTTP server (axum), and the network
requests, which hand plain values to the library and act on what it returns.
