# nexus

A library for market data and backtests of trading strategies. What it does is stated in contracts
and proved with Verus.

- `actor`: clocks and timers, state machines, handlers and a message bus, components and actors
- `buffer`: tick files, decoded ticks with volumes and VPIN, merging, bars and their aggregators
- `book`, `emulator`: an order book, and a market that fills orders from it
- `trading`, `cache`, `database`: orders, positions and accounts, kept under indices and saved
- `catalog`, `data`: a catalog of tick files, and an engine that hands data to subscribers
- `data_manager`: files of exchanges by day and by year, archives of trades, candles
- `backtest`: signals, accounts, and runs of strategies over ticks and bars
- `calibrate`, `ingest`: what the two programs decide
- `text`, `path`, `date`, `decimals`, `order`, `filters` and the maps: what the others are built on

Prices and sizes are whole numbers of a unit. The directory `app` holds the command line and
everything that touches files, exchanges, databases or floating point.
